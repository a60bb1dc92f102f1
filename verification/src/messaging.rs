//! What a conversation decides on the messaging events it receives: whether
//! a new or edited message is taken, what pinning and reacting do, how an
//! update of the conversation applies, and which event is announced.
//!
//! Fetching and storing documents, decrypting and publishing are the
//! caller's work; the signature check is handed in as a closure, told the
//! signer's DID, the signed bytes and the signature.
use crate::assoc::{contains_did, has_did};
use crate::codec::strings_view;
use crate::conversation::{concat_bytes, concat_utf8, pairs_view};
use crate::error::{is_length_error, Error};
use crate::keyed::{has_key, keyed_map, keys_distinct, lemma_map_absent, lemma_map_at, lemma_map_push, lemma_map_remove, lemma_map_update};
use crate::message::{be_bytes, be_bytes_exec, string_bytes};
use crate::page::opt_view;
use crate::limits::MAX_MESSAGE_SIZE;
use crate::message::{FileAttachmentDocument, MessageType};
use crate::text::{lines_length, lines_value_length, spec_trim, trim};
use vstd::prelude::*;
use vstd::utf8::encode_utf8;

verus! {

/// Whether a message came in from a peer or went out from here.
#[derive(PartialEq, Eq, Structural, Clone, Copy, Debug)]
pub enum MessageDirection {
    In,
    Out,
}

#[derive(PartialEq, Eq, Structural, Clone, Copy, Debug)]
pub enum PinState {
    Pin,
    Unpin,
}

#[derive(PartialEq, Eq, Structural, Clone, Copy, Debug)]
pub enum ReactionState {
    Add,
    Remove,
}

/// What is announced to the conversation's subscribers.
#[derive(PartialEq, Eq, Debug)]
pub enum MessageEventKind {
    MessageReceived { conversation_id: u128, message_id: u128 },
    MessageSent { conversation_id: u128, message_id: u128 },
    MessageEdited { conversation_id: u128, message_id: u128 },
    MessageDeleted { conversation_id: u128, message_id: u128 },
    MessagePinned { conversation_id: u128, message_id: u128 },
    MessageUnpinned { conversation_id: u128, message_id: u128 },
    MessageReactionAdded { conversation_id: u128, message_id: u128, did_key: String, reaction: String },
    MessageReactionRemoved { conversation_id: u128, message_id: u128, did_key: String, reaction: String },
    RecipientAdded { conversation_id: u128, recipient: String },
    RecipientRemoved { conversation_id: u128, recipient: String },
    ConversationNameUpdated { conversation_id: u128, name: String },
    ConversationSettingsUpdated { conversation_id: u128 },
}

/// The bytes a message's sender signs: the message id and the conversation
/// id (16 big-endian bytes each), the sender's DID, and the lines one after
/// the other, all in UTF-8.
pub open spec fn spec_construct(id: u128, conversation_id: u128, sender: Seq<char>, lines: Seq<Seq<char>>) -> Seq<u8> {
    be_bytes(id) + be_bytes(conversation_id) + encode_utf8(sender) + concat_utf8(lines)
}

/// The bytes a message's sender signs.
pub fn message_construct(id: u128, conversation_id: u128, sender: &String, lines: &Vec<String>) -> (r: Vec<u8>)
    ensures
        r@ == spec_construct(id, conversation_id, sender@, strings_view(lines@)),
{
    let mut r = be_bytes_exec(id);
    let mut parts: Vec<Vec<u8>> = Vec::new();
    parts.push(be_bytes_exec(conversation_id));
    parts.push(string_bytes(sender));
    parts.push(concat_bytes(lines));
    let ghost start = r@;
    let mut p: usize = 0;
    while p < parts.len()
        invariant
            p <= parts@.len(),
            parts@.len() == 3,
            parts@[0]@ == be_bytes(conversation_id),
            parts@[1]@ == encode_utf8(sender@),
            parts@[2]@ == concat_utf8(strings_view(lines@)),
            start == be_bytes(id),
            r@ == (if p == 0 {
                start
            } else if p == 1 {
                start + parts@[0]@
            } else if p == 2 {
                start + parts@[0]@ + parts@[1]@
            } else {
                start + parts@[0]@ + parts@[1]@ + parts@[2]@
            }),
        decreases parts@.len() - p,
    {
        let part = &parts[p];
        let ghost before = r@;
        let mut j: usize = 0;
        while j < part.len()
            invariant
                j <= part@.len(),
                r@ == before + part@.subrange(0, j as int),
            decreases part@.len() - j,
        {
            r.push(part[j]);
            assert(part@.subrange(0, j + 1) =~= part@.subrange(0, j as int).push(part@[j as int]));
            j += 1;
        }
        assert(part@.subrange(0, part@.len() as int) =~= part@);
        p += 1;
    }
    r
}

/// `check`, asked whether `signer` signed `construct` with `sig`, may answer
/// `c`.
pub open spec fn signature_checked<V: Fn(&String, &Vec<u8>, &Vec<u8>) -> bool>(
    check: V,
    signer: Seq<char>,
    construct: Seq<u8>,
    sig: Seq<u8>,
    c: bool,
) -> bool {
    exists|d: &String, b: &Vec<u8>, s: &Vec<u8>|
        d@ == signer && b@ == construct && s@ == sig && #[trigger] call_ensures(check, (d, b, s), c)
}

/// The event that announces a message taken in the given direction.
pub open spec fn arrival_event(direction: MessageDirection, conversation_id: u128, message_id: u128) -> MessageEventKind {
    match direction {
        MessageDirection::In => MessageEventKind::MessageReceived { conversation_id, message_id },
        MessageDirection::Out => MessageEventKind::MessageSent { conversation_id, message_id },
    }
}

/// Decides on a new message: one already in the conversation is refused,
/// as is one whose sender is not a recipient or whose signature does not
/// check out. A message taken is announced as received or sent.
pub fn accept_new_message<V: Fn(&String, &Vec<u8>, &Vec<u8>) -> bool>(
    existing: &Vec<u128>,
    recipients: &Vec<String>,
    message_id: u128,
    conversation_id: u128,
    sender: &String,
    lines: &Vec<String>,
    signature: &Vec<u8>,
    direction: MessageDirection,
    check: &V,
) -> (r: Result<MessageEventKind, Error>)
    requires
        forall|d: &String, b: &Vec<u8>, s: &Vec<u8>| call_requires(*check, (d, b, s)),
    ensures
        existing@.contains(message_id) ==> r == Err::<MessageEventKind, Error>(Error::MessageFound),
        !existing@.contains(message_id) && !has_did(recipients@, sender@) ==> r == Err::<MessageEventKind, Error>(
            Error::IdentityDoesntExist,
        ),
        !existing@.contains(message_id) && has_did(recipients@, sender@) ==> {
            let construct = spec_construct(message_id, conversation_id, sender@, strings_view(lines@));
            ||| r == Ok::<MessageEventKind, Error>(arrival_event(direction, conversation_id, message_id))
                && signature_checked(*check, sender@, construct, signature@, true)
            ||| r == Err::<MessageEventKind, Error>(Error::InvalidSignature) && signature_checked(
                *check,
                sender@,
                construct,
                signature@,
                false,
            )
        },
{
    let mut i: usize = 0;
    while i < existing.len()
        invariant
            i <= existing@.len(),
            forall|k: int| 0 <= k < i ==> existing@[k] != message_id,
        decreases existing@.len() - i,
    {
        if existing[i] == message_id {
            return Err(Error::MessageFound);
        }
        i += 1;
    }
    if !contains_did(recipients, sender) {
        return Err(Error::IdentityDoesntExist);
    }
    let construct = message_construct(message_id, conversation_id, sender, lines);
    if !check(sender, &construct, signature) {
        return Err(Error::InvalidSignature);
    }
    match direction {
        MessageDirection::In => Ok(MessageEventKind::MessageReceived { conversation_id, message_id }),
        MessageDirection::Out => Ok(MessageEventKind::MessageSent { conversation_id, message_id }),
    }
}

/// Position of the message with this id in this conversation, if any.
pub fn locate_message(messages: &Vec<(u128, u128)>, conversation_id: u128, message_id: u128) -> (r: Result<
    usize,
    Error,
>)
    ensures
        match r {
            Ok(i) => i < messages@.len() && messages@[i as int] == (message_id, conversation_id) && forall|k: int|
                0 <= k < i ==> messages@[k] != (message_id, conversation_id),
            Err(e) => e == Error::MessageNotFound && !messages@.contains((message_id, conversation_id)),
        },
{
    let mut i: usize = 0;
    while i < messages.len()
        invariant
            i <= messages@.len(),
            forall|k: int| 0 <= k < i ==> messages@[k] != (message_id, conversation_id),
        decreases messages@.len() - i,
    {
        if messages[i].0 == message_id && messages[i].1 == conversation_id {
            return Ok(i);
        }
        i += 1;
    }
    Err(Error::MessageNotFound)
}

/// Decides on an edit: the message as stored must carry its sender's valid
/// signature, and the edited lines a valid signature of the same sender. An
/// edit taken is announced.
pub fn accept_edit<V: Fn(&String, &Vec<u8>, &Vec<u8>) -> bool>(
    message_id: u128,
    conversation_id: u128,
    sender: &String,
    lines: &Vec<String>,
    signature: &Vec<u8>,
    new_lines: &Vec<String>,
    new_signature: &Vec<u8>,
    check: &V,
) -> (r: Result<MessageEventKind, Error>)
    requires
        forall|d: &String, b: &Vec<u8>, s: &Vec<u8>| call_requires(*check, (d, b, s)),
    ensures
        ({
            let stored = spec_construct(message_id, conversation_id, sender@, strings_view(lines@));
            let edited = spec_construct(message_id, conversation_id, sender@, strings_view(new_lines@));
            ||| r == Err::<MessageEventKind, Error>(Error::InvalidSignature) && signature_checked(
                *check,
                sender@,
                stored,
                signature@,
                false,
            )
            ||| r == Err::<MessageEventKind, Error>(Error::InvalidSignature) && signature_checked(
                *check,
                sender@,
                stored,
                signature@,
                true,
            ) && signature_checked(*check, sender@, edited, new_signature@, false)
            ||| r == Ok::<MessageEventKind, Error>(MessageEventKind::MessageEdited { conversation_id, message_id })
                && signature_checked(*check, sender@, stored, signature@, true) && signature_checked(
                *check,
                sender@,
                edited,
                new_signature@,
                true,
            )
        }),
{
    let stored = message_construct(message_id, conversation_id, sender, lines);
    if !check(sender, &stored, signature) {
        return Err(Error::InvalidSignature);
    }
    let edited = message_construct(message_id, conversation_id, sender, new_lines);
    if !check(sender, &edited, new_signature) {
        return Err(Error::InvalidSignature);
    }
    Ok(MessageEventKind::MessageEdited { conversation_id, message_id })
}

/// What pinning does: nothing when the message already is in the state
/// asked for; otherwise the new state and its announcement.
pub fn pin_decision(pinned: bool, state: PinState, conversation_id: u128, message_id: u128) -> (r: Option<
    (bool, MessageEventKind),
>)
    ensures
        (state == PinState::Pin) == pinned ==> r is None,
        (state == PinState::Pin) != pinned ==> r == Some(
            (
                state == PinState::Pin,
                if state == PinState::Pin {
                    MessageEventKind::MessagePinned { conversation_id, message_id }
                } else {
                    MessageEventKind::MessageUnpinned { conversation_id, message_id }
                },
            ),
        ),
{
    match state {
        PinState::Pin => {
            if pinned {
                None
            } else {
                Some((true, MessageEventKind::MessagePinned { conversation_id, message_id }))
            }
        },
        PinState::Unpin => {
            if !pinned {
                None
            } else {
                Some((false, MessageEventKind::MessageUnpinned { conversation_id, message_id }))
            }
        },
    }
}

/// No emoji is left without a reactor.
pub open spec fn reactions_valid(m: Map<Seq<char>, Seq<Seq<char>>>) -> bool {
    forall|e: Seq<char>| #[trigger] m.contains_key(e) ==> m[e].len() > 0
}

/// Whether `reactor` reacts with `emoji`.
pub open spec fn has_reaction(m: Map<Seq<char>, Seq<Seq<char>>>, emoji: Seq<char>, reactor: Seq<char>) -> bool {
    m.contains_key(emoji) && m[emoji].contains(reactor)
}

/// The reactions once `reactor` reacts with `emoji`: last among its reactors.
pub open spec fn reacted(m: Map<Seq<char>, Seq<Seq<char>>>, emoji: Seq<char>, reactor: Seq<char>) -> Map<
    Seq<char>,
    Seq<Seq<char>>,
> {
    m.insert(
        emoji,
        if m.contains_key(emoji) {
            m[emoji]
        } else {
            Seq::empty()
        }.push(reactor),
    )
}

/// The reactors of `s` other than `reactor`, in order.
pub open spec fn others(s: Seq<Seq<char>>, reactor: Seq<char>) -> Seq<Seq<char>> {
    s.filter(|d: Seq<char>| d != reactor)
}

/// The reactions once `reactor` takes back `emoji`: the emoji goes when no
/// reactor is left.
pub open spec fn unreacted(m: Map<Seq<char>, Seq<Seq<char>>>, emoji: Seq<char>, reactor: Seq<char>) -> Map<
    Seq<char>,
    Seq<Seq<char>>,
> {
    let left = others(m[emoji], reactor);
    if left.len() == 0 {
        m.remove(emoji)
    } else {
        m.insert(emoji, left)
    }
}

/// The reactions of a message: for each emoji, who reacted with it.
pub struct Reactions {
    entries: Vec<(String, Vec<String>)>,
}

pub open spec fn reaction_entries(s: Seq<(String, Vec<String>)>) -> Seq<(Seq<char>, Seq<Seq<char>>)> {
    Seq::new(s.len(), |i: int| (s[i].0@, strings_view(s[i].1@)))
}

impl View for Reactions {
    type V = Map<Seq<char>, Seq<Seq<char>>>;

    closed spec fn view(&self) -> Map<Seq<char>, Seq<Seq<char>>> {
        keyed_map(reaction_entries(self.entries@))
    }
}

fn position_of(list: &Vec<String>, did: &String) -> (r: usize)
    ensures
        r <= list@.len(),
        r < list@.len() ==> list@[r as int]@ == did@,
        forall|k: int| 0 <= k < r ==> list@[k]@ != did@,
{
    let mut i: usize = 0;
    while i < list.len()
        invariant
            i <= list@.len(),
            forall|k: int| 0 <= k < i ==> list@[k]@ != did@,
        decreases list@.len() - i,
    {
        if list[i] == *did {
            return i;
        }
        i += 1;
    }
    i
}

impl Reactions {
    /// No emoji occurs twice, and each has a reactor.
    pub closed spec fn inv(&self) -> bool {
        &&& keys_distinct(reaction_entries(self.entries@))
        &&& reactions_valid(self@)
    }

    /// The emoji in the order they were first reacted with.
    pub closed spec fn emoji_order(&self) -> Seq<Seq<char>> {
        Seq::new(self.entries@.len(), |i: int| self.entries@[i].0@)
    }

    /// Each emoji of a valid value is listed once in the order, and the
    /// order lists exactly the emoji reacted with.
    pub proof fn law_emoji_order_lists_each_once(&self)
        requires
            self.inv(),
        ensures
            forall|i: int, j: int|
                0 <= i < j < self.emoji_order().len() ==> #[trigger] self.emoji_order()[i] != #[trigger] self.emoji_order()[j],
            forall|e: Seq<char>| #[trigger] self@.contains_key(e) <==> self.emoji_order().contains(e),
    {
        let s = reaction_entries(self.entries@);
        assert forall|i: int, j: int|
            0 <= i < j < self.emoji_order().len() implies #[trigger] self.emoji_order()[i] != #[trigger] self.emoji_order()[j] by {
            assert(s[i].0 != s[j].0);
        }
        assert forall|e: Seq<char>| #[trigger] self@.contains_key(e) <==> self.emoji_order().contains(e) by {
            if self@.contains_key(e) {
                let i = choose|i: int| 0 <= i < s.len() && #[trigger] s[i].0 == e;
                assert(self.emoji_order()[i] == e);
            }
            if self.emoji_order().contains(e) {
                let i = choose|i: int| 0 <= i < self.emoji_order().len() && self.emoji_order()[i] == e;
                assert(s[i].0 == e);
            }
        }
    }

    /// The emoji reacted with, in the order they were first reacted with.
    pub fn emojis(&self) -> (r: Vec<String>)
        ensures
            strings_view(r@) == self.emoji_order(),
    {
        let mut r: Vec<String> = Vec::new();
        let mut i: usize = 0;
        while i < self.entries.len()
            invariant
                i <= self.entries@.len(),
                strings_view(r@) == self.emoji_order().subrange(0, i as int),
            decreases self.entries@.len() - i,
        {
            let ghost before = strings_view(r@);
            let e = self.entries[i].0.clone();
            r.push(e);
            assert(strings_view(r@) =~= before.push(self.entries@[i as int].0@));
            assert(strings_view(r@) =~= self.emoji_order().subrange(0, i + 1));
            i += 1;
        }
        assert(self.emoji_order().subrange(0, i as int) =~= self.emoji_order());
        r
    }

    /// The reactions of a valid value are valid.
    pub proof fn law_no_emoji_without_reactor(&self)
        requires
            self.inv(),
        ensures
            reactions_valid(self@),
    {
    }

    /// No reactions.
    pub fn new() -> (r: Self)
        ensures
            r.inv(),
            r@ == Map::<Seq<char>, Seq<Seq<char>>>::empty(),
            r.emoji_order().len() == 0,
    {
        let r = Reactions { entries: Vec::new() };
        assert(r@ =~= Map::<Seq<char>, Seq<Seq<char>>>::empty());
        r
    }

    fn find(&self, emoji: &String) -> (r: usize)
        requires
            self.inv(),
        ensures
            r <= self.entries@.len(),
            r < self.entries@.len() ==> self.entries@[r as int].0@ == emoji@ && self@.contains_key(emoji@)
                && self@[emoji@] == strings_view(self.entries@[r as int].1@),
            r == self.entries@.len() ==> !self@.contains_key(emoji@),
    {
        let ghost s = reaction_entries(self.entries@);
        let mut i: usize = 0;
        while i < self.entries.len()
            invariant
                i <= self.entries@.len(),
                s == reaction_entries(self.entries@),
                keys_distinct(s),
                forall|k: int| 0 <= k < i ==> self.entries@[k].0@ != emoji@,
            decreases self.entries@.len() - i,
        {
            if self.entries[i].0 == *emoji {
                proof {
                    lemma_map_at(s, i as int);
                }
                return i;
            }
            i += 1;
        }
        proof {
            assert forall|k: int| 0 <= k < s.len() implies s[k].0 != emoji@ by {
                assert(s[k].0 == self.entries@[k].0@);
            }
            lemma_map_absent(s, emoji@);
        }
        i
    }

    /// Who reacted with `emoji`, oldest first.
    pub fn reactors(&self, emoji: &String) -> (r: Vec<String>)
        requires
            self.inv(),
        ensures
            self@.contains_key(emoji@) ==> strings_view(r@) == self@[emoji@],
            !self@.contains_key(emoji@) ==> r@.len() == 0,
    {
        let k = self.find(emoji);
        if k < self.entries.len() {
            crate::message::clone_strings(&self.entries[k].1)
        } else {
            Vec::new()
        }
    }

    /// `reactor` reacts with `emoji`; reacting twice is refused.
    pub fn add(&mut self, emoji: &String, reactor: &String) -> (r: Result<(), Error>)
        requires
            old(self).inv(),
        ensures
            final(self).inv(),
            has_reaction(old(self)@, emoji@, reactor@) ==> r == Err::<(), Error>(Error::ReactionExist)
                && final(self)@ == old(self)@,
            !has_reaction(old(self)@, emoji@, reactor@) ==> r is Ok && final(self)@ == reacted(
                old(self)@,
                emoji@,
                reactor@,
            ),
            final(self).emoji_order() == if old(self)@.contains_key(emoji@) {
                old(self).emoji_order()
            } else {
                old(self).emoji_order().push(emoji@)
            },
    {
        let ghost s = reaction_entries(self.entries@);
        let k = self.find(emoji);
        if k < self.entries.len() {
            proof {
                crate::assoc::lemma_has_did_view(self.entries@[k as int].1@, reactor@);
            }
            if contains_did(&self.entries[k].1, reactor) {
                return Err(Error::ReactionExist);
            }
            let ghost list = self.entries@[k as int].1@;
            self.entries[k].1.push(reactor.clone());
            proof {
                assert(strings_view(self.entries@[k as int].1@) =~= strings_view(list).push(reactor@));
                assert(reaction_entries(self.entries@) =~= s.update(
                    k as int,
                    (emoji@, strings_view(list).push(reactor@)),
                ));
                lemma_map_update(s, k as int, (emoji@, strings_view(list).push(reactor@)));
            }
            Ok(())
        } else {
            let mut list: Vec<String> = Vec::new();
            list.push(reactor.clone());
            self.entries.push((emoji.clone(), list));
            proof {
                assert(strings_view(self.entries@[s.len() as int].1@) =~= seq![reactor@]);
                assert(reaction_entries(self.entries@) =~= s.push((emoji@, seq![reactor@])));
                assert(!has_key(s, emoji@));
                lemma_map_push(s, (emoji@, seq![reactor@]));
                assert(Seq::<Seq<char>>::empty().push(reactor@) =~= seq![reactor@]);
            }
            Ok(())
        }
    }

    /// `reactor` takes back its reaction `emoji`; an emoji nobody reacts with
    /// any more is dropped. Taking back a reaction that is not there is
    /// refused.
    pub fn remove(&mut self, emoji: &String, reactor: &String) -> (r: Result<(), Error>)
        requires
            old(self).inv(),
        ensures
            final(self).inv(),
            !has_reaction(old(self)@, emoji@, reactor@) ==> r == Err::<(), Error>(Error::ReactionDoesntExist)
                && final(self)@ == old(self)@,
            has_reaction(old(self)@, emoji@, reactor@) ==> r is Ok && final(self)@ == unreacted(
                old(self)@,
                emoji@,
                reactor@,
            ),
            has_reaction(old(self)@, emoji@, reactor@) && final(self)@.contains_key(emoji@) ==> final(self).emoji_order()
                == old(self).emoji_order(),
            has_reaction(old(self)@, emoji@, reactor@) && !final(self)@.contains_key(emoji@) ==> exists|k: int|
                0 <= k < old(self).emoji_order().len() && old(self).emoji_order()[k] == emoji@
                    && final(self).emoji_order() == old(self).emoji_order().remove(k),
            !has_reaction(old(self)@, emoji@, reactor@) ==> final(self).emoji_order() == old(self).emoji_order(),
    {
        let ghost s = reaction_entries(self.entries@);
        let k = self.find(emoji);
        if k >= self.entries.len() {
            return Err(Error::ReactionDoesntExist);
        }
        proof {
            crate::assoc::lemma_has_did_view(self.entries@[k as int].1@, reactor@);
        }
        if !contains_did(&self.entries[k].1, reactor) {
            return Err(Error::ReactionDoesntExist);
        }
        let ghost lv = strings_view(self.entries@[k as int].1@);
        let mut kept: Vec<String> = Vec::new();
        let mut j: usize = 0;
        while j < self.entries[k].1.len()
            invariant
                k < self.entries@.len(),
                j <= self.entries@[k as int].1@.len(),
                lv == strings_view(self.entries@[k as int].1@),
                strings_view(kept@) == others(lv.subrange(0, j as int), reactor@),
            decreases self.entries@[k as int].1@.len() - j,
        {
            proof {
                assert(lv.subrange(0, j + 1).drop_last() =~= lv.subrange(0, j as int));
                reveal_with_fuel(Seq::filter, 1);
            }
            if self.entries[k].1[j] != *reactor {
                let ghost before = kept@;
                kept.push(self.entries[k].1[j].clone());
                assert(strings_view(kept@) =~= strings_view(before).push(lv[j as int]));
            }
            j += 1;
        }
        assert(lv.subrange(0, lv.len() as int) =~= lv);
        let ghost left = others(lv, reactor@);
        let ghost order = self.emoji_order();
        if kept.len() == 0 {
            self.entries.remove(k);
            proof {
                assert(order[k as int] == emoji@);
                assert(self.emoji_order() =~= order.remove(k as int));
                assert(reaction_entries(self.entries@) =~= s.remove(k as int));
                lemma_map_remove(s, k as int);
            }
        } else {
            self.entries.set(k, (emoji.clone(), kept));
            proof {
                assert(reaction_entries(self.entries@) =~= s.update(k as int, (emoji@, left)));
                lemma_map_update(s, k as int, (emoji@, left));
            }
        }
        Ok(())
    }
}

proof fn lemma_filter_keeps_all(s: Seq<Seq<char>>, x: Seq<char>)
    requires
        !s.contains(x),
    ensures
        others(s, x) == s,
    decreases s.len(),
{
    reveal_with_fuel(Seq::filter, 1);
    if s.len() > 0 {
        assert(!s.drop_last().contains(x)) by {
            if s.drop_last().contains(x) {
                let k = choose|k: int| 0 <= k < s.drop_last().len() && s.drop_last()[k] == x;
                assert(s[k] == x);
            }
        }
        lemma_filter_keeps_all(s.drop_last(), x);
        assert(s.last() != x) by {
            assert(s[s.len() - 1] == s.last());
        }
        assert(s.drop_last().push(s.last()) =~= s);
    } else {
        assert(others(s, x) =~= s);
    }
}

/// A reaction added and then taken back leaves the reactions as they were.
pub proof fn law_react_then_unreact(m: Map<Seq<char>, Seq<Seq<char>>>, emoji: Seq<char>, reactor: Seq<char>)
    requires
        reactions_valid(m),
        !has_reaction(m, emoji, reactor),
    ensures
        has_reaction(reacted(m, emoji, reactor), emoji, reactor),
        unreacted(reacted(m, emoji, reactor), emoji, reactor) == m,
{
    let added = reacted(m, emoji, reactor);
    let before = if m.contains_key(emoji) {
        m[emoji]
    } else {
        Seq::<Seq<char>>::empty()
    };
    assert(added[emoji] == before.push(reactor));
    assert(added[emoji][before.len() as int] == reactor);
    assert(!before.contains(reactor));
    reveal_with_fuel(Seq::filter, 1);
    lemma_filter_keeps_all(before, reactor);
    assert(before.push(reactor).drop_last() =~= before);
    let left = others(added[emoji], reactor);
    assert(left == before);
    if m.contains_key(emoji) {
        assert(before.len() > 0);
        assert(unreacted(added, emoji, reactor) == added.insert(emoji, left));
        assert(added.insert(emoji, left) =~= m);
    } else {
        assert(left.len() == 0);
        assert(unreacted(added, emoji, reactor) == added.remove(emoji));
        assert(added.remove(emoji) =~= m);
    }
}

/// A change to a conversation that one of its members announces.
#[derive(Debug)]
pub enum ConversationUpdateKind {
    AddParticipant { did: String },
    RemoveParticipant { did: String },
    ChangeName { name: Option<String> },
    AddRestricted { did: String },
    RemoveRestricted { did: String },
    ChangeSettings,
}

/// How an update applies: whether the updated document is stored, the
/// exclusions it keeps, and what is announced.
#[derive(Debug)]
pub struct UpdatePlan {
    pub store: bool,
    pub excluded: Vec<(String, String)>,
    pub event: Option<MessageEventKind>,
}

/// `excluded` without the entries for `did`.
pub open spec fn without_exclusion(excluded: Seq<(Seq<char>, Seq<char>)>, did: Seq<char>) -> Seq<(Seq<char>, Seq<char>)> {
    excluded.filter(|e: (Seq<char>, Seq<char>)| e.0 != did)
}

/// Some exclusion names `did`.
pub open spec fn is_excluded(excluded: Seq<(Seq<char>, Seq<char>)>, did: Seq<char>) -> bool {
    exists|i: int| 0 <= i < excluded.len() && #[trigger] excluded[i].0 == did
}

fn copy_pairs(v: &Vec<(String, String)>) -> (r: Vec<(String, String)>)
    ensures
        pairs_view(r@) == pairs_view(v@),
{
    let mut r: Vec<(String, String)> = Vec::new();
    let mut i: usize = 0;
    while i < v.len()
        invariant
            i <= v@.len(),
            r@.len() == i,
            forall|k: int| 0 <= k < i ==> (#[trigger] r@[k]).0@ == v@[k].0@ && r@[k].1@ == v@[k].1@,
        decreases v@.len() - i,
    {
        r.push((v[i].0.clone(), v[i].1.clone()));
        i += 1;
    }
    assert(pairs_view(r@) =~= pairs_view(v@));
    r
}

/// Decides how an announced update of a conversation applies to the stored
/// document (its raw recipients, exclusions and name). Adding a recipient
/// that is there, or removing one that is not, is refused; a name is
/// trimmed and may have at most 255 bytes, and the same name again changes
/// nothing. A removed recipient loses its exclusion, and its removal is
/// announced only when it had not excluded itself.
pub fn plan_conversation_update(
    conversation_id: u128,
    recipients: &Vec<String>,
    excluded: &Vec<(String, String)>,
    name: &Option<String>,
    kind: &ConversationUpdateKind,
) -> (r: Result<UpdatePlan, Error>)
    ensures
        match *kind {
            ConversationUpdateKind::AddParticipant { did } => if has_did(recipients@, did@) {
                r == Err::<UpdatePlan, Error>(Error::IdentityExist)
            } else {
                r matches Ok(p) && {
                    &&& p.store
                    &&& pairs_view(p.excluded@) == pairs_view(excluded@)
                    &&& p.event matches Some(MessageEventKind::RecipientAdded { conversation_id: c, recipient })
                    &&& c == conversation_id
                    &&& recipient@ == did@
                }
            },
            ConversationUpdateKind::RemoveParticipant { did } => if !has_did(recipients@, did@) {
                r == Err::<UpdatePlan, Error>(Error::IdentityDoesntExist)
            } else {
                r matches Ok(p) && {
                    &&& p.store
                    &&& pairs_view(p.excluded@) == without_exclusion(pairs_view(excluded@), did@)
                    &&& if is_excluded(pairs_view(excluded@), did@) {
                        p.event is None
                    } else {
                        &&& p.event matches Some(MessageEventKind::RecipientRemoved { conversation_id: c, recipient })
                        &&& c == conversation_id
                        &&& recipient@ == did@
                    }
                }
            },
            ConversationUpdateKind::ChangeName { name: Some(n) } => {
                let t = spec_trim(n@);
                if encode_utf8(t).len() > 255 {
                    r matches Err(e) && is_length_error(e, "name"@, encode_utf8(t).len() as usize, None, Some(255))
                } else if opt_view(*name) == Some(t) {
                    r matches Ok(p) && !p.store && p.event is None
                } else {
                    r matches Ok(p) && {
                        &&& p.store
                        &&& pairs_view(p.excluded@) == pairs_view(excluded@)
                        &&& p.event matches Some(MessageEventKind::ConversationNameUpdated { conversation_id: c, name: m })
                        &&& c == conversation_id
                        &&& m@ == t
                    }
                }
            },
            ConversationUpdateKind::ChangeName { name: None } => r matches Ok(p) && {
                &&& p.store
                &&& pairs_view(p.excluded@) == pairs_view(excluded@)
                &&& p.event matches Some(MessageEventKind::ConversationNameUpdated { conversation_id: c, name: m })
                &&& c == conversation_id
                &&& m@.len() == 0
            },
            ConversationUpdateKind::AddRestricted { .. } | ConversationUpdateKind::RemoveRestricted { .. } => r matches Ok(
                p,
            ) && p.store && pairs_view(p.excluded@) == pairs_view(excluded@) && p.event is None,
            ConversationUpdateKind::ChangeSettings => r matches Ok(p) && p.store && pairs_view(p.excluded@)
                == pairs_view(excluded@) && p.event == Some(
                MessageEventKind::ConversationSettingsUpdated { conversation_id },
            ),
        },
{
    match kind {
        ConversationUpdateKind::AddParticipant { did } => {
            if contains_did(recipients, did) {
                return Err(Error::IdentityExist);
            }
            Ok(
                UpdatePlan {
                    store: true,
                    excluded: copy_pairs(excluded),
                    event: Some(MessageEventKind::RecipientAdded { conversation_id, recipient: did.clone() }),
                },
            )
        },
        ConversationUpdateKind::RemoveParticipant { did } => {
            if !contains_did(recipients, did) {
                return Err(Error::IdentityDoesntExist);
            }
            let ghost ev = pairs_view(excluded@);
            let mut kept: Vec<(String, String)> = Vec::new();
            let mut named = false;
            let mut i: usize = 0;
            while i < excluded.len()
                invariant
                    i <= excluded@.len(),
                    ev == pairs_view(excluded@),
                    pairs_view(kept@) == without_exclusion(ev.subrange(0, i as int), did@),
                    named == exists|k: int| 0 <= k < i && #[trigger] ev[k].0 == did@,
                decreases excluded@.len() - i,
            {
                proof {
                    assert(ev.subrange(0, i + 1).drop_last() =~= ev.subrange(0, i as int));
                    reveal_with_fuel(Seq::filter, 1);
                    assert(ev[i as int] == (excluded@[i as int].0@, excluded@[i as int].1@));
                }
                if excluded[i].0 == *did {
                    named = true;
                    assert(ev[i as int].0 == did@);
                } else {
                    assert(ev[i as int].0 != did@);
                    assert(forall|k: int| 0 <= k < i + 1 && #[trigger] ev[k].0 == did@ ==> k < i);
                    let ghost before = kept@;
                    kept.push((excluded[i].0.clone(), excluded[i].1.clone()));
                    assert(pairs_view(kept@) =~= pairs_view(before).push(ev[i as int]));
                }
                i += 1;
            }
            assert(ev.subrange(0, ev.len() as int) =~= ev);
            let event = if named {
                None
            } else {
                Some(MessageEventKind::RecipientRemoved { conversation_id, recipient: did.clone() })
            };
            Ok(UpdatePlan { store: true, excluded: kept, event })
        },
        ConversationUpdateKind::ChangeName { name: Some(n) } => {
            let t = trim(n.as_str());
            let len = t.as_str().as_bytes().len();
            if len > 255 {
                return Err(
                    Error::InvalidLength {
                        context: String::from_str("name"),
                        current: len,
                        minimum: None,
                        maximum: Some(255),
                    },
                );
            }
            let same = match name {
                Some(current) => *current == t,
                None => false,
            };
            if same {
                return Ok(UpdatePlan { store: false, excluded: Vec::new(), event: None });
            }
            Ok(
                UpdatePlan {
                    store: true,
                    excluded: copy_pairs(excluded),
                    event: Some(MessageEventKind::ConversationNameUpdated { conversation_id, name: t }),
                },
            )
        },
        ConversationUpdateKind::ChangeName { name: None } => {
            Ok(
                UpdatePlan {
                    store: true,
                    excluded: copy_pairs(excluded),
                    event: Some(MessageEventKind::ConversationNameUpdated { conversation_id, name: String::new() }),
                },
            )
        },
        ConversationUpdateKind::AddRestricted { .. } | ConversationUpdateKind::RemoveRestricted { .. } => {
            Ok(UpdatePlan { store: true, excluded: copy_pairs(excluded), event: None })
        },
        ConversationUpdateKind::ChangeSettings => {
            Ok(
                UpdatePlan {
                    store: true,
                    excluded: copy_pairs(excluded),
                    event: Some(MessageEventKind::ConversationSettingsUpdated { conversation_id }),
                },
            )
        },
    }
}


/// Checks the lines of a message about to be sent, edited or replied with:
/// there must be some, and together, each trimmed and empty ones skipped,
/// they must hold 1 to `MAX_MESSAGE_SIZE` characters. Gives that count.
pub fn check_outgoing_lines(lines: &Vec<String>) -> (r: Result<usize, Error>)
    requires
        lines_length(strings_view(lines@)) <= usize::MAX,
    ensures
        lines@.len() == 0 ==> r == Err::<usize, Error>(Error::EmptyMessage),
        lines@.len() > 0 && (lines_length(strings_view(lines@)) == 0 || lines_length(strings_view(lines@))
            > MAX_MESSAGE_SIZE) ==> (r matches Err(e) && is_length_error(
            e,
            "message"@,
            lines_length(strings_view(lines@)) as usize,
            Some(1),
            Some(MAX_MESSAGE_SIZE),
        )),
        lines@.len() > 0 && 1 <= lines_length(strings_view(lines@)) <= MAX_MESSAGE_SIZE ==> r == Ok::<usize, Error>(
            lines_length(strings_view(lines@)) as usize,
        ),
{
    if lines.len() == 0 {
        return Err(Error::EmptyMessage);
    }
    let n = lines_value_length(lines);
    if n == 0 || n > MAX_MESSAGE_SIZE {
        return Err(
            Error::InvalidLength {
                context: String::from_str("message"),
                current: n,
                minimum: Some(1),
                maximum: Some(MAX_MESSAGE_SIZE),
            },
        );
    }
    Ok(n)
}

/// Position of the first attachment named `name`, or -1.
pub open spec fn attachment_index(a: Seq<FileAttachmentDocument>, name: Seq<char>) -> int
    decreases a.len(),
{
    if a.len() == 0 {
        -1
    } else if attachment_index(a.drop_last(), name) >= 0 {
        attachment_index(a.drop_last(), name)
    } else if a.last().name@ == name {
        a.len() - 1
    } else {
        -1
    }
}

/// Picks the attachment of a message to download: the message must be an
/// attachment message, and the first attachment named `name` is taken.
pub fn attachment_to_download(message_type: MessageType, attachments: &Vec<FileAttachmentDocument>, name: &str) -> (r:
    Result<usize, Error>)
    ensures
        message_type != MessageType::Attachment ==> r == Err::<usize, Error>(Error::InvalidMessage),
        message_type == MessageType::Attachment && attachment_index(attachments@, name@) < 0 ==> r == Err::<
            usize,
            Error,
        >(Error::FileNotFound),
        message_type == MessageType::Attachment && attachment_index(attachments@, name@) >= 0 ==> r == Ok::<
            usize,
            Error,
        >(attachment_index(attachments@, name@) as usize),
{
    if message_type != MessageType::Attachment {
        return Err(Error::InvalidMessage);
    }
    let wanted = String::from_str(name);
    let mut i: usize = 0;
    while i < attachments.len()
        invariant
            i <= attachments@.len(),
            message_type == MessageType::Attachment,
            wanted@ == name@,
            attachment_index(attachments@.subrange(0, i as int), name@) < 0,
        decreases attachments@.len() - i,
    {
        assert(attachments@.subrange(0, i + 1).drop_last() =~= attachments@.subrange(0, i as int));
        if attachments[i].name == wanted {
            proof {
                lemma_attachment_index_prefix(attachments@, name@, i as int + 1);
            }
            return Ok(i);
        }
        i = i + 1;
    }
    assert(attachments@.subrange(0, i as int) =~= attachments@);
    Err(Error::FileNotFound)
}

/// A first match in a prefix is the first match overall.
proof fn lemma_attachment_index_prefix(a: Seq<FileAttachmentDocument>, name: Seq<char>, k: int)
    requires
        0 <= k <= a.len(),
        attachment_index(a.subrange(0, k), name) >= 0,
    ensures
        attachment_index(a, name) == attachment_index(a.subrange(0, k), name),
    decreases a.len() - k,
{
    if k < a.len() {
        assert(a.subrange(0, k + 1).drop_last() =~= a.subrange(0, k));
        lemma_attachment_index_prefix(a, name, k + 1);
    } else {
        assert(a.subrange(0, k) =~= a);
    }
}

} // verus!
