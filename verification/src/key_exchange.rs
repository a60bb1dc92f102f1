//! The key exchange of a group: a member asks for the caller's current key,
//! and a member's answer is stored in the group's keystore.
//!
//! The ciphers (the ECDH encryption between the caller and a member) are the
//! caller's, handed in as closures.
use crate::codec::strings_view;
use crate::conversation::{exclusion_checked, remaining_participants, ConversationDocument, ConversationType};
use crate::error::Error;
use crate::keystore::{spec_insert_key, spec_keys, Keystore};
use vstd::prelude::*;

verus! {

/// `sender` remains a participant of the conversation, by some answers of
/// `check` to its exclusions.
pub open spec fn remains<X: Fn(&String, &String, &Vec<u8>) -> bool>(
    check: X,
    conversation: ConversationDocument,
    sender: Seq<char>,
    b: bool,
) -> bool {
    exists|accepted: Seq<bool>|
        accepted.len() == conversation@.excluded.len() && (forall|e: int|
            0 <= e < conversation@.excluded.len() ==> exclusion_checked(
                check,
                conversation@.excluded[e],
                #[trigger] accepted[e],
            )) && b == remaining_participants(conversation@.recipients, conversation@.excluded, accepted).contains(
            sender,
        )
}

fn is_participant<X: Fn(&String, &String, &Vec<u8>) -> bool>(
    conversation: &ConversationDocument,
    sender: &String,
    check: &X,
) -> (b: bool)
    requires
        forall|d: &String, c: &String, s: &Vec<u8>| call_requires(*check, (d, c, s)),
    ensures
        remains(*check, *conversation, sender@, b),
{
    let remaining = conversation.recipients(check);
    proof {
        crate::assoc::lemma_has_did_view(remaining@, sender@);
    }
    crate::assoc::contains_did(&remaining, sender)
}

/// Answers a member's request for the caller's key: the sender must remain
/// a participant of the group; the answer is the caller's newest key, opened
/// with `decrypt`.
pub fn answer_key_request<X: Fn(&String, &String, &Vec<u8>) -> bool, F: Fn(&[u8]) -> Option<Vec<u8>>>(
    conversation: &ConversationDocument,
    keystore: &Keystore,
    own_did: &String,
    sender: &String,
    check: &X,
    decrypt: F,
) -> (r: Result<Vec<u8>, Error>)
    requires
        conversation.conversation_type == ConversationType::Group,
        forall|d: &String, c: &String, s: &Vec<u8>| call_requires(*check, (d, c, s)),
        forall|x: &[u8]| call_requires(decrypt, (x,)),
    ensures
        remains(*check, *conversation, sender@, false) && r == Err::<Vec<u8>, Error>(Error::IdentityDoesntExist)
            || remains(*check, *conversation, sender@, true) && match spec_keys(keystore@, own_did@) {
            Some(keys) if keys.len() > 0 => exists|x: &[u8], d: Option<Vec<u8>>|
                x@ == keys.last() && #[trigger] call_ensures(decrypt, (x,), d) && match d {
                    Some(k) => r is Ok && r->Ok_0@ == k@,
                    None => r == Err::<Vec<u8>, Error>(Error::PublicKeyDoesntExist),
                },
            _ => r == Err::<Vec<u8>, Error>(Error::PublicKeyDoesntExist),
        },
{
    if !is_participant(conversation, sender, check) {
        return Err(Error::IdentityDoesntExist);
    }
    keystore.get_latest(own_did, decrypt)
}

/// Stores a member's key that came as an answer: the sender must remain a
/// participant of the group; its key is opened with `open` (the cipher
/// between the caller and the sender) and stored for the sender, encrypted
/// with `encrypt`.
pub fn take_key_response<
    X: Fn(&String, &String, &Vec<u8>) -> bool,
    D: Fn(&[u8]) -> Result<Vec<u8>, Error>,
    E: Fn(&[u8]) -> Result<Vec<u8>, Error>,
>(
    conversation: &ConversationDocument,
    keystore: &mut Keystore,
    sender: &String,
    key: &[u8],
    check: &X,
    open: D,
    encrypt: E,
) -> (r: Result<(), Error>)
    requires
        conversation.conversation_type == ConversationType::Group,
        old(keystore).inv(),
        forall|d: &String, c: &String, s: &Vec<u8>| call_requires(*check, (d, c, s)),
        call_requires(open, (key,)),
        forall|x: &[u8]| call_requires(encrypt, (x,)),
    ensures
        final(keystore).inv(),
        final(keystore).spec_conversation_id() == old(keystore).spec_conversation_id(),
        remains(*check, *conversation, sender@, false) && r == Err::<(), Error>(Error::IdentityDoesntExist)
            && final(keystore)@ == old(keystore)@ || remains(*check, *conversation, sender@, true) && exists|
            o: Result<Vec<u8>, Error>,
        |
            #[trigger] call_ensures(open, (key,), o) && match o {
                Err(e) => r == Err::<(), Error>(e) && final(keystore)@ == old(keystore)@,
                Ok(raw) => exists|x: &[u8], c: Result<Vec<u8>, Error>|
                    x@ == raw@ && #[trigger] call_ensures(encrypt, (x,), c) && match c {
                        Err(e) => r == Err::<(), Error>(e) && final(keystore)@ == old(keystore)@,
                        Ok(bytes) => match spec_insert_key(old(keystore)@, sender@, bytes@) {
                            Ok(v) => r is Ok && final(keystore)@ == v,
                            Err(e) => r == Err::<(), Error>(e) && final(keystore)@ == old(keystore)@,
                        },
                    },
            },
{
    if !is_participant(conversation, sender, check) {
        return Err(Error::IdentityDoesntExist);
    }
    let raw = match open(key) {
        Ok(raw) => raw,
        Err(e) => {
            return Err(e);
        },
    };
    keystore.insert(sender, raw.as_slice(), encrypt)
}

} // verus!
