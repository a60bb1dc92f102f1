//! Who may start, join, leave and delete a conversation: the checks a
//! conversation task makes before it stores or drops a document.
use crate::assoc::{contains_did, has_did};
use crate::codec::{bs58_decode, bs58_decoded, strings_view, uuid_hyphenated, uuid_string};
use crate::conversation::{
    conversation_verify_outcome, exclusion_checked, excluded_by, pairs_view, remaining_participants,
    ConversationDocument, ConversationType, ConversationView,
};
use crate::error::{is_length_error, Error};
use crate::identity::byte_len;
use crate::page::opt_view;
use crate::text::{spec_trim, trim};
use vstd::prelude::*;

verus! {

/// Some conversation is a direct one whose remaining participants include
/// both `own` and `did`, by the accepted exclusions `accepted[i]` of
/// conversation `i`.
pub open spec fn direct_exists(
    conversations: Seq<ConversationView>,
    accepted: Seq<Seq<bool>>,
    own: Seq<char>,
    did: Seq<char>,
    i: int,
) -> bool {
    &&& 0 <= i < conversations.len()
    &&& conversations[i].conversation_type == ConversationType::Direct
    &&& remaining_participants(conversations[i].recipients, conversations[i].excluded, accepted[i]).contains(did)
    &&& remaining_participants(conversations[i].recipients, conversations[i].excluded, accepted[i]).contains(own)
}

/// `accepted[i]` holds what `check` may answer for each exclusion of
/// conversation `i`.
pub open spec fn exclusions_checked<X: Fn(&String, &String, &Vec<u8>) -> bool>(
    check: X,
    conversations: Seq<ConversationView>,
    accepted: Seq<Seq<bool>>,
    n: int,
) -> bool {
    &&& accepted.len() == n
    &&& forall|i: int|
        0 <= i < n ==> (#[trigger] accepted[i]).len() == conversations[i].excluded.len() && forall|e: int|
            0 <= e < conversations[i].excluded.len() ==> exclusion_checked(
                check,
                conversations[i].excluded[e],
                #[trigger] accepted[i][e],
            )
}

pub open spec fn views(s: Seq<ConversationDocument>) -> Seq<ConversationView> {
    s.map_values(|d: ConversationDocument| d@)
}

/// Checks before a direct conversation with `did` is started: `did` must not
/// be blocked nor be the caller, and no direct conversation between the two
/// may exist (the first one found is named).
pub fn check_new_direct<X: Fn(&String, &String, &Vec<u8>) -> bool>(
    own_did: &String,
    did: &String,
    is_blocked: bool,
    conversations: &Vec<ConversationDocument>,
    check: &X,
) -> (r: Result<(), Error>)
    requires
        forall|d: &String, c: &String, s: &Vec<u8>| call_requires(*check, (d, c, s)),
    ensures
        is_blocked ==> r == Err::<(), Error>(Error::PublicKeyIsBlocked),
        !is_blocked && did@ == own_did@ ==> r == Err::<(), Error>(Error::CannotCreateConversation),
        !is_blocked && did@ != own_did@ ==> match r {
            Ok(()) => exists|accepted: Seq<Seq<bool>>|
                exclusions_checked(*check, views(conversations@), accepted, conversations@.len() as int) && forall|
                    i: int,
                | !direct_exists(views(conversations@), accepted, own_did@, did@, i),
            Err(e) => exists|accepted: Seq<Seq<bool>>, i: int|
                exclusions_checked(*check, views(conversations@), accepted, i + 1) && direct_exists(
                    views(conversations@),
                    accepted,
                    own_did@,
                    did@,
                    i,
                ) && e == (Error::ConversationExist { conversation: conversations@[i].id }) && forall|j: int|
                    0 <= j < i ==> !direct_exists(views(conversations@), accepted, own_did@, did@, j),
        },
{
    if is_blocked {
        return Err(Error::PublicKeyIsBlocked);
    }
    if *did == *own_did {
        return Err(Error::CannotCreateConversation);
    }
    let ghost cv = views(conversations@);
    let ghost mut accepted: Seq<Seq<bool>> = Seq::empty();
    let mut i: usize = 0;
    while i < conversations.len()
        invariant
            i <= conversations@.len(),
            cv == views(conversations@),
            !is_blocked,
            did@ != own_did@,
            exclusions_checked(*check, cv, accepted, i as int),
            forall|k: int| 0 <= k < i ==> !direct_exists(cv, accepted, own_did@, did@, k),
            forall|d: &String, c: &String, s: &Vec<u8>| call_requires(*check, (d, c, s)),
        decreases conversations@.len() - i,
    {
        let conversation = &conversations[i];
        let remaining = conversation.recipients(check);
        let ghost a = choose|a: Seq<bool>|
            a.len() == conversation@.excluded.len() && (forall|e: int|
                0 <= e < conversation@.excluded.len() ==> exclusion_checked(
                    *check,
                    conversation@.excluded[e],
                    #[trigger] a[e],
                )) && strings_view(remaining@) == remaining_participants(
                conversation@.recipients,
                conversation@.excluded,
                a,
            );
        let ghost before = accepted;
        proof {
            accepted = accepted.push(a);
            assert(cv[i as int] == conversation@);
            assert forall|k: int| 0 <= k < i + 1 implies (#[trigger] accepted[k]).len() == cv[k].excluded.len()
                && forall|e: int|
                0 <= e < cv[k].excluded.len() ==> exclusion_checked(*check, cv[k].excluded[e], #[trigger] accepted[k][e]) by {
                if k < i {
                    assert(accepted[k] == before[k]);
                }
            }
            assert forall|k: int| 0 <= k < i implies !direct_exists(cv, accepted, own_did@, did@, k) by {
                assert(accepted[k] == before[k]);
                assert(!direct_exists(cv, before, own_did@, did@, k));
            }
            crate::assoc::lemma_has_did_view(remaining@, did@);
            crate::assoc::lemma_has_did_view(remaining@, own_did@);
        }
        if conversation.conversation_type == ConversationType::Direct && contains_did(&remaining, did)
            && contains_did(&remaining, own_did) {
            proof {
                assert(accepted[i as int] == a);
                assert(direct_exists(cv, accepted, own_did@, did@, i as int));
                assert(exclusions_checked(*check, cv, accepted, i + 1));
                assert(cv[i as int].id == conversations@[i as int].id);
            }
            return Err(Error::ConversationExist { conversation: conversation.id });
        }
        proof {
            assert(accepted[i as int] == a);
            if conversation.conversation_type == ConversationType::Direct {
                assert(!direct_exists(cv, accepted, own_did@, did@, i as int));
            }
        }
        i += 1;
    }
    Ok(())
}

/// The recipients a group starts with: those not blocked either way.
pub open spec fn unblocked(recipients: Seq<Seq<char>>, blocked: Seq<bool>) -> Seq<Seq<char>>
    decreases recipients.len(),
{
    if recipients.len() == 0 {
        Seq::empty()
    } else {
        let rest = unblocked(recipients.drop_last(), blocked);
        if blocked[recipients.len() - 1] {
            rest
        } else {
            rest.push(recipients.last())
        }
    }
}

/// A group name that, trimmed, is empty or longer than 255 bytes.
pub open spec fn bad_name(name: Option<String>) -> bool {
    match name {
        Some(n) => byte_len(spec_trim(n@)) == 0 || byte_len(spec_trim(n@)) > 255,
        None => false,
    }
}

pub open spec fn name_error(name: Option<String>, r: Result<Vec<String>, Error>) -> bool {
    r matches Err(e) && is_length_error(e, "name"@, byte_len(spec_trim(name->0@)) as usize, Some(1), Some(255))
}

pub open spec fn kept_unblocked(recipients: Seq<String>, blocked: Seq<bool>, r: Result<Vec<String>, Error>) -> bool {
    r matches Ok(kept) && strings_view(kept@) == unblocked(strings_view(recipients), blocked)
}

/// Checks before a group is started: the caller may not list itself; a name
/// is trimmed and must have 1 to 255 bytes; recipients blocked either way
/// (`blocked[i]` for recipient `i`) are left out. Gives the recipients kept.
pub fn check_new_group(own_did: &String, name: &Option<String>, recipients: &Vec<String>, blocked: &Vec<bool>) -> (r:
    Result<Vec<String>, Error>)
    requires
        blocked@.len() == recipients@.len(),
    ensures
        has_did(recipients@, own_did@) ==> r == Err::<Vec<String>, Error>(Error::CannotCreateConversation),
        !has_did(recipients@, own_did@) && bad_name(*name) ==> name_error(*name, r),
        !has_did(recipients@, own_did@) && !bad_name(*name) ==> kept_unblocked(recipients@, blocked@, r),
{
    if contains_did(recipients, own_did) {
        return Err(Error::CannotCreateConversation);
    }
    if let Some(n) = name {
        let t = trim(n.as_str());
        let len = t.as_str().as_bytes().len();
        if len == 0 || len > 255 {
            return Err(
                Error::InvalidLength {
                    context: String::from_str("name"),
                    current: len,
                    minimum: Some(1),
                    maximum: Some(255),
                },
            );
        }
    }
    let ghost rv = strings_view(recipients@);
    let mut kept: Vec<String> = Vec::new();
    let mut i: usize = 0;
    while i < recipients.len()
        invariant
            i <= recipients@.len(),
            blocked@.len() == recipients@.len(),
            rv == strings_view(recipients@),
            strings_view(kept@) == unblocked(rv.subrange(0, i as int), blocked@),
        decreases recipients@.len() - i,
    {
        assert(rv.subrange(0, i + 1).drop_last() =~= rv.subrange(0, i as int));
        if !blocked[i] {
            let ghost before = kept@;
            kept.push(recipients[i].clone());
            assert(strings_view(kept@) =~= strings_view(before).push(rv[i as int]));
        }
        i += 1;
    }
    assert(rv.subrange(0, rv.len() as int) =~= rv);
    Ok(kept)
}

/// Decides on an invitation to a group: one already known, or one that does
/// not list the caller, is ignored (`None`); otherwise the group's signature
/// must check out, and the document is taken without a message list.
pub fn accept_group_invite<C: Fn(&[u8; 32], &Vec<Option<Vec<u8>>>, &Vec<u8>) -> bool>(
    known: bool,
    conversation: ConversationDocument,
    own_did: &String,
    check: &C,
) -> (r: Result<Option<ConversationDocument>, Error>)
    requires
        forall|k: &[u8; 32], f: &Vec<Option<Vec<u8>>>, s: &Vec<u8>| call_requires(*check, (k, f, s)),
    ensures
        known ==> r matches Ok(None),
        !known && !has_did(conversation.recipients@, own_did@) ==> r matches Ok(None),
        !known && has_did(conversation.recipients@, own_did@) ==> match r {
            Ok(Some(d)) => conversation_verify_outcome(*check, conversation@, Ok(())) && d@ == ConversationView {
                messages: None,
                ..conversation@
            },
            Ok(None) => false,
            Err(e) => conversation_verify_outcome(*check, conversation@, Err(e)),
        },
{
    if known {
        return Ok(None);
    }
    if !contains_did(&conversation.recipients, own_did) {
        return Ok(None);
    }
    match conversation.verify(check) {
        Ok(()) => {},
        Err(e) => {
            return Err(e);
        },
    }
    let mut conversation = conversation;
    conversation.messages = None;
    Ok(Some(conversation))
}

/// The sender may delete the conversation: a participant of a direct
/// conversation, or the creator of a group.
pub fn may_delete<X: Fn(&String, &String, &Vec<u8>) -> bool>(
    conversation: &ConversationDocument,
    sender: &String,
    check: &X,
) -> (b: bool)
    requires
        forall|d: &String, c: &String, s: &Vec<u8>| call_requires(*check, (d, c, s)),
    ensures
        conversation.conversation_type == ConversationType::Group ==> b == (opt_view(conversation.creator) == Some(
            sender@,
        )),
        conversation.conversation_type == ConversationType::Direct ==> exists|accepted: Seq<bool>|
            accepted.len() == conversation@.excluded.len() && (forall|e: int|
                0 <= e < conversation@.excluded.len() ==> exclusion_checked(
                    *check,
                    conversation@.excluded[e],
                    #[trigger] accepted[e],
                )) && b == remaining_participants(
                conversation@.recipients,
                conversation@.excluded,
                accepted,
            ).contains(sender@),
{
    match conversation.conversation_type {
        ConversationType::Group => match &conversation.creator {
            Some(c) => *c == *sender,
            None => false,
        },
        ConversationType::Direct => {
            let remaining = conversation.recipients(check);
            proof {
                crate::assoc::lemma_has_did_view(remaining@, sender@);
            }
            contains_did(&remaining, sender)
        },
    }
}

/// What happens when a member leaves a group.
#[derive(PartialEq, Eq, Debug)]
pub enum LeaveOutcome {
    /// The caller created the group: it removes the member itself.
    RemoveByCreator,
    /// The member's signed exclusion was recorded; `announce` tells whether
    /// it is new and its removal is to be announced.
    Excluded { announce: bool },
}

/// Some exclusion is recorded for `did`.
pub open spec fn has_exclusion(excluded: Seq<(Seq<char>, Seq<char>)>, did: Seq<char>) -> bool {
    exists|i: int| 0 <= i < excluded.len() && #[trigger] excluded[i].0 == did
}

pub open spec fn context_error(r: Result<LeaveOutcome, Error>, m: Seq<char>) -> bool {
    r matches Err(Error::OtherWithContext(x)) && x@ == m
}

/// What a member `recipient` leaving the group `before` with the signed
/// exclusion `signature` gives, `after` being the document afterwards.
pub open spec fn leave_result<X: Fn(&String, &String, &Vec<u8>) -> bool>(
    check: X,
    before: ConversationDocument,
    after: ConversationView,
    own: Seq<char>,
    recipient: Seq<char>,
    signature: Seq<char>,
    r: Result<LeaveOutcome, Error>,
) -> bool {
    if before.conversation_type != ConversationType::Group {
        context_error(r, "Can only leave from a group conversation"@)
    } else if before.creator is None {
        context_error(r, "Group conversation requires a creator"@)
    } else if before.creator->0@ == recipient {
        context_error(r, "Cannot remove the creator of the group"@)
    } else if !has_did(before.recipients@, recipient) {
        context_error(r, recipient + " does not belong to "@ + uuid_hyphenated(before.id))
    } else if before.creator->0@ == own {
        r == Ok::<LeaveOutcome, Error>(LeaveOutcome::RemoveByCreator)
    } else if bs58_decoded(signature) is None {
        r == Err::<LeaveOutcome, Error>(Error::Bs58Error)
    } else if r == Err::<LeaveOutcome, Error>(Error::InvalidSignature) {
        exclusion_checked(check, (recipient, signature), false)
    } else {
        &&& exclusion_checked(check, (recipient, signature), true)
        &&& if has_exclusion(before@.excluded, recipient) {
            r == Ok::<LeaveOutcome, Error>(LeaveOutcome::Excluded { announce: false }) && after == before@
        } else {
            r == Ok::<LeaveOutcome, Error>(LeaveOutcome::Excluded { announce: true }) && after == ConversationView {
                excluded: before@.excluded.push((recipient, signature)),
                ..before@
            }
        }
    }
}

fn has_exclusion_exec(excluded: &Vec<(String, String)>, did: &String) -> (b: bool)
    ensures
        b == has_exclusion(pairs_view(excluded@), did@),
{
    let ghost ev = pairs_view(excluded@);
    let mut i: usize = 0;
    while i < excluded.len()
        invariant
            i <= excluded@.len(),
            ev == pairs_view(excluded@),
            forall|k: int| 0 <= k < i ==> ev[k].0 != did@,
        decreases excluded@.len() - i,
    {
        if excluded[i].0 == *did {
            assert(ev[i as int].0 == did@);
            return true;
        }
        i += 1;
    }
    false
}

/// Decides on a member leaving a group with its signed exclusion. Only a
/// group member other than the creator may leave. When the caller is the
/// creator, the member is to be removed; otherwise the exclusion's signature
/// must check out and it is recorded once.
pub fn apply_leave<X: Fn(&String, &String, &Vec<u8>) -> bool>(
    conversation: &mut ConversationDocument,
    own_did: &String,
    recipient: &String,
    signature: String,
    check: &X,
) -> (r: Result<LeaveOutcome, Error>)
    requires
        forall|d: &String, c: &String, s: &Vec<u8>| call_requires(*check, (d, c, s)),
    ensures
        r is Err || r == Ok::<LeaveOutcome, Error>(LeaveOutcome::RemoveByCreator) ==> *final(conversation) == *old(
            conversation,
        ),
        leave_result(*check, *old(conversation), final(conversation)@, own_did@, recipient@, signature@, r),
{
    if conversation.conversation_type != ConversationType::Group {
        return Err(Error::OtherWithContext(String::from_str("Can only leave from a group conversation")));
    }
    let creator = match &conversation.creator {
        Some(c) => c.clone(),
        None => {
            return Err(Error::OtherWithContext(String::from_str("Group conversation requires a creator")));
        },
    };
    if *recipient == creator {
        return Err(Error::OtherWithContext(String::from_str("Cannot remove the creator of the group")));
    }
    if !contains_did(&conversation.recipients, recipient) {
        let text = recipient.clone().concat(" does not belong to ").concat(uuid_string(conversation.id).as_str());
        return Err(Error::OtherWithContext(text));
    }
    if creator == *own_did {
        return Ok(LeaveOutcome::RemoveByCreator);
    }
    let sig = match bs58_decode(signature.as_str()) {
        Some(b) => b,
        None => {
            return Err(Error::Bs58Error);
        },
    };
    let context = String::from_str("exclude ").concat(recipient.as_str());
    if !check(recipient, &context, &sig) {
        return Err(Error::InvalidSignature);
    }
    if has_exclusion_exec(&conversation.excluded, recipient) {
        return Ok(LeaveOutcome::Excluded { announce: false });
    }
    let ghost ev = conversation@.excluded;
    let ghost before = conversation@;
    conversation.excluded.push((recipient.clone(), signature));
    assert(pairs_view(conversation.excluded@) =~= ev.push((recipient@, signature@)));
    assert(conversation@ == ConversationView { excluded: before.excluded.push((recipient@, signature@)), ..before });
    Ok(LeaveOutcome::Excluded { announce: true })
}

} // verus!
