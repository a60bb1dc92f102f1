//! Verified document logic of the warp-ipfs store: message reference lists,
//! keystores, message documents, conversations, communities, identities and
//! the event subscription queue.

pub mod assoc;
pub mod cache;
pub mod clock;
pub mod codec;
pub mod community;
pub mod conversation;
pub mod did;
pub mod discovery;
pub mod error;
pub mod events;
pub mod files;
pub mod friends;
pub mod group_admin;
pub mod identity;
pub mod identity_events;
pub mod identity_updates;
pub mod image;
pub mod key_exchange;
pub mod keyed;
pub mod keystore;
pub mod limits;
pub mod lookup;
pub mod membership;
pub mod message;
pub mod messaging;
pub mod page;
pub mod reference;
pub mod reference_laws;
pub mod request;
pub mod root;
pub mod root_document;
pub mod selection;
pub mod text;

use vstd::prelude::*;

verus! {

} // verus!
