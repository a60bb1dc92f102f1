//! What a change in another identity's standing does to the conversations
//! one takes part in: blocking someone (or being blocked) ends the direct
//! conversations with them and takes them out of the groups one created;
//! unblocking lifts their restriction in those groups. Carrying out each
//! action is the caller's part.
use crate::assoc::{contains_did, lemma_has_did_view};
use crate::codec::strings_view;
use crate::conversation::{
    exclusion_checked, remaining_participants, ConversationDocument, ConversationType, ConversationView,
};
use vstd::prelude::*;

verus! {

/// The identity events a conversation store reacts to.
#[derive(PartialEq, Eq, Structural, Clone, Copy, Debug)]
pub enum IdentityEventKind {
    FriendAdded,
    FriendRemoved,
    Blocked,
    BlockedBy,
    Unblocked,
    Other,
}

/// What is done to one conversation.
#[derive(PartialEq, Eq, Structural, Clone, Copy, Debug)]
pub enum ConversationAction {
    Keep,
    Delete,
    /// Take the identity out of the group; when `restrict`, also restrict it
    /// from being added back.
    RemoveRecipient { restrict: bool },
    RemoveRestricted,
}

/// The action on conversation `d`, with remaining recipients `recipients`,
/// when identity `did` was the subject of an event of kind `kind`; `own` is
/// one's own DID and `blocked` whether one blocks `did`. Friendship changes
/// lead to no action.
pub open spec fn event_action(
    kind: IdentityEventKind,
    own: Seq<char>,
    did: Seq<char>,
    d: ConversationView,
    recipients: Seq<Seq<char>>,
    blocked: bool,
) -> ConversationAction {
    match kind {
        IdentityEventKind::Blocked | IdentityEventKind::BlockedBy => {
            if !recipients.contains(did) {
                ConversationAction::Keep
            } else if d.conversation_type == ConversationType::Direct {
                ConversationAction::Delete
            } else if d.creator == Some(own) {
                ConversationAction::RemoveRecipient { restrict: blocked }
            } else {
                ConversationAction::Keep
            }
        },
        IdentityEventKind::Unblocked => {
            if d.conversation_type == ConversationType::Group && d.creator == Some(own) && d.restrict.contains(
                did,
            ) {
                ConversationAction::RemoveRestricted
            } else {
                ConversationAction::Keep
            }
        },
        _ => ConversationAction::Keep,
    }
}

/// Decides what happens to conversation `doc`, whose recipients that have
/// not validly excluded themselves are `recipients`.
pub fn conversation_action(
    kind: IdentityEventKind,
    own_did: &String,
    did: &String,
    doc: &ConversationDocument,
    recipients: &Vec<String>,
    blocked: bool,
) -> (r: ConversationAction)
    ensures
        r == event_action(kind, own_did@, did@, doc@, strings_view(recipients@), blocked),
{
    let own_group = match &doc.creator {
        Some(c) => *c == *own_did,
        None => false,
    };
    match kind {
        IdentityEventKind::Blocked | IdentityEventKind::BlockedBy => {
            let member = contains_did(recipients, did);
            proof {
                lemma_has_did_view(recipients@, did@);
            }
            if !member {
                ConversationAction::Keep
            } else if doc.conversation_type == ConversationType::Direct {
                ConversationAction::Delete
            } else if own_group {
                ConversationAction::RemoveRecipient { restrict: blocked }
            } else {
                ConversationAction::Keep
            }
        },
        IdentityEventKind::Unblocked => {
            let restricted = contains_did(&doc.restrict, did);
            proof {
                lemma_has_did_view(doc.restrict@, did@);
            }
            if doc.conversation_type == ConversationType::Group && own_group && restricted {
                ConversationAction::RemoveRestricted
            } else {
                ConversationAction::Keep
            }
        },
        _ => ConversationAction::Keep,
    }
}

/// `a` is what an event of kind `kind` about `did` may do to `d`: for a
/// block, with the recipients left by some answers of `check` on the
/// conversation's exclusions; otherwise recipients do not matter.
pub open spec fn planned<X: Fn(&String, &String, &Vec<u8>) -> bool>(
    check: X,
    kind: IdentityEventKind,
    own: Seq<char>,
    did: Seq<char>,
    d: ConversationView,
    blocked: bool,
    a: ConversationAction,
) -> bool {
    if kind == IdentityEventKind::Blocked || kind == IdentityEventKind::BlockedBy {
        exists|accepted: Seq<bool>|
            accepted.len() == d.excluded.len() && (forall|e: int|
                0 <= e < d.excluded.len() ==> exclusion_checked(check, d.excluded[e], #[trigger] accepted[e]))
                && a == event_action(kind, own, did, d, remaining_participants(d.recipients, d.excluded, accepted), blocked)
    } else {
        a == event_action(kind, own, did, d, Seq::empty(), blocked)
    }
}

/// For each conversation, in order, its id and what an event of kind `kind`
/// about `did` does to it; `blocked` tells whether one blocks `did`.
pub fn identity_event_plan<X: Fn(&String, &String, &Vec<u8>) -> bool>(
    kind: IdentityEventKind,
    own_did: &String,
    did: &String,
    conversations: &Vec<ConversationDocument>,
    check: &X,
    blocked: bool,
) -> (r: Vec<(u128, ConversationAction)>)
    requires
        forall|d: &String, c: &String, s: &Vec<u8>| call_requires(*check, (d, c, s)),
    ensures
        r@.len() == conversations@.len(),
        forall|i: int| 0 <= i < r@.len() ==> (#[trigger] r@[i]).0 == conversations@[i].id,
        forall|i: int|
            0 <= i < r@.len() ==> planned(
                *check,
                kind,
                own_did@,
                did@,
                conversations@[i]@,
                blocked,
                #[trigger] r@[i].1,
            ),
{
    let mut r: Vec<(u128, ConversationAction)> = Vec::new();
    let mut i: usize = 0;
    while i < conversations.len()
        invariant
            i <= conversations@.len(),
            r@.len() == i,
            forall|j: int| 0 <= j < i ==> (#[trigger] r@[j]).0 == conversations@[j].id,
            forall|d: &String, c: &String, s: &Vec<u8>| call_requires(*check, (d, c, s)),
            forall|j: int|
                0 <= j < i ==> planned(
                    *check,
                    kind,
                    own_did@,
                    did@,
                    conversations@[j]@,
                    blocked,
                    #[trigger] r@[j].1,
                ),
        decreases conversations@.len() - i,
    {
        let doc = &conversations[i];
        let a = if kind == IdentityEventKind::Blocked || kind == IdentityEventKind::BlockedBy {
            let recipients = doc.recipients(check);
            let a = conversation_action(kind, own_did, did, doc, &recipients, blocked);
            proof {
                let accepted = choose|accepted: Seq<bool>|
                    accepted.len() == doc@.excluded.len() && (forall|e: int|
                        0 <= e < doc@.excluded.len() ==> exclusion_checked(
                            *check,
                            doc@.excluded[e],
                            #[trigger] accepted[e],
                        )) && strings_view(recipients@) == remaining_participants(
                        doc@.recipients,
                        doc@.excluded,
                        accepted,
                    );
                assert(planned(*check, kind, own_did@, did@, doc@, blocked, a));
            }
            a
        } else {
            let none: Vec<String> = Vec::new();
            let a = conversation_action(kind, own_did, did, doc, &none, blocked);
            proof {
                assert(strings_view(none@) =~= Seq::<Seq<char>>::empty());
            }
            a
        };
        proof {
            assert(planned(*check, kind, own_did@, did@, conversations@[i as int]@, blocked, a));
        }
        let id = doc.id;
        r.push((id, a));
        i = i + 1;
    }
    r
}

} // verus!
