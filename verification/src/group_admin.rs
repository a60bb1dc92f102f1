//! What the creator of a group may change: its recipients, its restricted
//! identities and its name. Each change is checked against the caller and
//! the group before the document is touched; a refused change leaves it as
//! it was.
use crate::assoc::{contains_did, has_did, lemma_has_did_view};
use crate::codec::strings_view;
use crate::conversation::{ConversationDocument, ConversationType, ConversationView};
use crate::error::{is_length_err, Error};
use crate::identity::byte_len;
use crate::page::opt_view;
use crate::text::{spec_trim, trim};
use vstd::prelude::*;

verus! {

/// Why the caller may not administer `d` as creator: a direct conversation
/// or one without creator is not a group; only the creator may act.
pub open spec fn admin_refusal(d: ConversationView, own: Seq<char>) -> Option<Error> {
    if d.conversation_type == ConversationType::Direct {
        Some(Error::InvalidConversation)
    } else if d.creator is None {
        Some(Error::InvalidConversation)
    } else if d.creator->0 != own {
        Some(Error::PublicKeyInvalid)
    } else {
        None
    }
}

/// Everything but `did`.
pub open spec fn other_than(did: Seq<char>) -> spec_fn(Seq<char>) -> bool {
    |x: Seq<char>| x != did
}

/// `list` without any `did`.
pub open spec fn without(list: Seq<Seq<char>>, did: Seq<char>) -> Seq<Seq<char>> {
    list.filter(other_than(did))
}

fn check_admin(d: &ConversationDocument, own_did: &String) -> (r: Result<(), Error>)
    ensures
        match admin_refusal(d@, own_did@) {
            Some(e) => r == Err::<(), Error>(e),
            None => r is Ok,
        },
{
    if d.conversation_type == ConversationType::Direct {
        return Err(Error::InvalidConversation);
    }
    match &d.creator {
        None => Err(Error::InvalidConversation),
        Some(c) => if *c != *own_did {
            Err(Error::PublicKeyInvalid)
        } else {
            Ok(())
        },
    }
}

fn remove_all(list: &mut Vec<String>, did: &String)
    ensures
        strings_view(final(list)@) == without(strings_view(old(list)@), did@),
{
    let ghost before = strings_view(list@);
    let mut kept: Vec<String> = Vec::new();
    let mut i: usize = 0;
    while i < list.len()
        invariant
            i <= list@.len(),
            before == strings_view(list@),
            strings_view(kept@) == without(before.subrange(0, i as int), did@),
        decreases list@.len() - i,
    {
        proof {
            assert(before.subrange(0, i + 1).drop_last() =~= before.subrange(0, i as int));
            reveal_with_fuel(Seq::filter, 1);
        }
        if list[i] != *did {
            let ghost k = strings_view(kept@);
            kept.push(list[i].clone());
            assert(strings_view(kept@) =~= k.push(before[i as int]));
        }
        i += 1;
    }
    assert(before.subrange(0, before.len() as int) =~= before);
    *list = kept;
}

/// Restricts an identity the caller blocked: only the creator may, and not
/// for itself.
pub fn add_restricted(d: &mut ConversationDocument, own_did: &String, did: &String, is_blocked: bool) -> (r: Result<
    (),
    Error,
>)
    ensures
        admin_refusal(old(d)@, own_did@) matches Some(e) ==> r == Err::<(), Error>(e) && final(d)@ == old(d)@,
        admin_refusal(old(d)@, own_did@) is None && old(d)@.creator == Some(did@) ==> r == Err::<(), Error>(
            Error::PublicKeyInvalid,
        ) && final(d)@ == old(d)@,
        admin_refusal(old(d)@, own_did@) is None && old(d)@.creator != Some(did@) && !is_blocked ==> r == Err::<
            (),
            Error,
        >(Error::PublicKeyIsntBlocked) && final(d)@ == old(d)@,
        admin_refusal(old(d)@, own_did@) is None && old(d)@.creator != Some(did@) && is_blocked ==> r is Ok
            && final(d)@ == (ConversationView { restrict: old(d)@.restrict.push(did@), ..old(d)@ }),
{
    match check_admin(d, own_did) {
        Ok(()) => {},
        Err(e) => {
            return Err(e);
        },
    }
    let is_creator = match &d.creator {
        Some(c) => *c == *did,
        None => false,
    };
    if is_creator {
        return Err(Error::PublicKeyInvalid);
    }
    if !is_blocked {
        return Err(Error::PublicKeyIsntBlocked);
    }
    let ghost before = d@;
    d.restrict.push(did.clone());
    assert(strings_view(d.restrict@) =~= before.restrict.push(did@));
    Ok(())
}

/// Lifts the restriction of an identity the caller no longer blocks: only
/// the creator may, and not for itself.
pub fn remove_restricted(d: &mut ConversationDocument, own_did: &String, did: &String, is_blocked: bool) -> (r:
    Result<(), Error>)
    ensures
        admin_refusal(old(d)@, own_did@) matches Some(e) ==> r == Err::<(), Error>(e) && final(d)@ == old(d)@,
        admin_refusal(old(d)@, own_did@) is None && old(d)@.creator == Some(did@) ==> r == Err::<(), Error>(
            Error::PublicKeyInvalid,
        ) && final(d)@ == old(d)@,
        admin_refusal(old(d)@, own_did@) is None && old(d)@.creator != Some(did@) && is_blocked ==> r == Err::<
            (),
            Error,
        >(Error::PublicKeyIsBlocked) && final(d)@ == old(d)@,
        admin_refusal(old(d)@, own_did@) is None && old(d)@.creator != Some(did@) && !is_blocked ==> r is Ok
            && final(d)@ == (ConversationView { restrict: without(old(d)@.restrict, did@), ..old(d)@ }),
{
    match check_admin(d, own_did) {
        Ok(()) => {},
        Err(e) => {
            return Err(e);
        },
    }
    let is_creator = match &d.creator {
        Some(c) => *c == *did,
        None => false,
    };
    if is_creator {
        return Err(Error::PublicKeyInvalid);
    }
    if is_blocked {
        return Err(Error::PublicKeyIsBlocked);
    }
    remove_all(&mut d.restrict, did);
    Ok(())
}

/// The name a group gets from `name`: trimmed, and none when empty.
pub open spec fn new_name(name: Seq<char>) -> Option<Seq<char>> {
    if spec_trim(name).len() == 0 {
        None
    } else {
        Some(spec_trim(name))
    }
}

/// Renames a group: the name is trimmed and may have at most 255 bytes; an
/// empty name clears it. Only the creator may. Gives the trimmed name, which
/// is announced.
pub fn rename(d: &mut ConversationDocument, own_did: &String, name: &str) -> (r: Result<String, Error>)
    ensures
        byte_len(spec_trim(name@)) > 255 ==> is_length_err(
            r,
            "name"@,
            byte_len(spec_trim(name@)) as usize,
            None,
            Some(255),
        ) && final(d)@ == old(d)@,
        byte_len(spec_trim(name@)) <= 255 && admin_refusal(old(d)@, own_did@) is Some ==> r == Err::<String, Error>(
            admin_refusal(old(d)@, own_did@)->0,
        ) && final(d)@ == old(d)@,
        byte_len(spec_trim(name@)) <= 255 && admin_refusal(old(d)@, own_did@) is None ==> (r matches Ok(n) && n@
            == spec_trim(name@)) && final(d)@ == (ConversationView { name: new_name(name@), ..old(d)@ }),
{
    let t = trim(name);
    let len = t.as_str().as_bytes().len();
    if len > 255 {
        return Err(
            Error::InvalidLength { context: String::from_str("name"), current: len, minimum: None, maximum: Some(255) },
        );
    }
    match check_admin(d, own_did) {
        Ok(()) => {},
        Err(e) => {
            return Err(e);
        },
    }
    if t.as_str().unicode_len() == 0 {
        d.name = None;
    } else {
        d.name = Some(t.clone());
    }
    Ok(t)
}

/// Adds a recipient to a group: the creator may, and so may members when
/// the group lets them; the creator itself, a blocked identity, or a
/// recipient already there is refused.
pub fn add_recipient(
    d: &mut ConversationDocument,
    own_did: &String,
    did: &String,
    members_can_add: bool,
    is_blocked: bool,
) -> (r: Result<(), Error>)
    ensures
        ({
            let v = old(d)@;
            let refusal = if v.conversation_type == ConversationType::Direct || v.creator is None {
                Some(Error::InvalidConversation)
            } else if !members_can_add && v.creator->0 != own_did@ {
                Some(Error::PublicKeyInvalid)
            } else if v.creator->0 == did@ {
                Some(Error::PublicKeyInvalid)
            } else if is_blocked {
                Some(Error::PublicKeyIsBlocked)
            } else if v.recipients.contains(did@) {
                Some(Error::IdentityExist)
            } else {
                None
            };
            match refusal {
                Some(e) => r == Err::<(), Error>(e) && final(d)@ == v,
                None => r is Ok && final(d)@ == (ConversationView { recipients: v.recipients.push(did@), ..v }),
            }
        }),
{
    if d.conversation_type == ConversationType::Direct {
        return Err(Error::InvalidConversation);
    }
    let creator = match &d.creator {
        Some(c) => c.clone(),
        None => {
            return Err(Error::InvalidConversation);
        },
    };
    if !members_can_add && creator != *own_did {
        return Err(Error::PublicKeyInvalid);
    }
    if creator == *did {
        return Err(Error::PublicKeyInvalid);
    }
    if is_blocked {
        return Err(Error::PublicKeyIsBlocked);
    }
    proof {
        lemma_has_did_view(d.recipients@, did@);
    }
    if contains_did(&d.recipients, did) {
        return Err(Error::IdentityExist);
    }
    let ghost before = d@;
    d.recipients.push(did.clone());
    assert(strings_view(d.recipients@) =~= before.recipients.push(did@));
    Ok(())
}

/// Removes a recipient from a group: only the creator may, not itself, and
/// only a recipient that is there.
pub fn remove_recipient(d: &mut ConversationDocument, own_did: &String, did: &String) -> (r: Result<(), Error>)
    ensures
        admin_refusal(old(d)@, own_did@) matches Some(e) ==> r == Err::<(), Error>(e) && final(d)@ == old(d)@,
        admin_refusal(old(d)@, own_did@) is None && old(d)@.creator == Some(did@) ==> r == Err::<(), Error>(
            Error::PublicKeyInvalid,
        ) && final(d)@ == old(d)@,
        admin_refusal(old(d)@, own_did@) is None && old(d)@.creator != Some(did@) && !old(d)@.recipients.contains(
            did@,
        ) ==> r == Err::<(), Error>(Error::IdentityDoesntExist) && final(d)@ == old(d)@,
        admin_refusal(old(d)@, own_did@) is None && old(d)@.creator != Some(did@) && old(d)@.recipients.contains(
            did@,
        ) ==> r is Ok && final(d)@ == (ConversationView { recipients: without(old(d)@.recipients, did@), ..old(d)@ }),
{
    match check_admin(d, own_did) {
        Ok(()) => {},
        Err(e) => {
            return Err(e);
        },
    }
    let is_creator = match &d.creator {
        Some(c) => *c == *did,
        None => false,
    };
    if is_creator {
        return Err(Error::PublicKeyInvalid);
    }
    proof {
        lemma_has_did_view(d.recipients@, did@);
    }
    if !contains_did(&d.recipients, did) {
        return Err(Error::IdentityDoesntExist);
    }
    remove_all(&mut d.recipients, did);
    Ok(())
}

/// A recipient that the creator removes is gone, whatever it was listed as;
/// and the creator is never removed.
pub proof fn law_removed_recipient_is_gone(recipients: Seq<Seq<char>>, did: Seq<char>)
    ensures
        !without(recipients, did).contains(did),
        forall|x: Seq<char>| x != did ==> (recipients.contains(x) <==> without(recipients, did).contains(x)),
{
    assert forall|x: Seq<char>| x != did implies (recipients.contains(x) <==> without(recipients, did).contains(x)) by {
        if recipients.contains(x) {
            let i = choose|i: int| 0 <= i < recipients.len() && recipients[i] == x;
            recipients.lemma_filter_contains(other_than(did), i);
        }
        if without(recipients, did).contains(x) {
            recipients.lemma_filter_contains_rev(other_than(did), x);
        }
    }
    if without(recipients, did).contains(did) {
        let f = without(recipients, did);
        let i = choose|i: int| 0 <= i < f.len() && f[i] == did;
        recipients.lemma_filter_pred(other_than(did), i);
    }
}

} // verus!
