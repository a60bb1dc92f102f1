use vstd::prelude::*;

verus! {

/// Most attachments a message may carry (checked before one more is added).
pub const MAX_ATTACHMENT: usize = 32;

/// Most distinct reactions a message may carry.
pub const MAX_REACTIONS: usize = 30;

/// Most characters of a message's lines, counted after trimming.
pub const MAX_MESSAGE_SIZE: usize = 4096;

/// Fewest characters of a message.
pub const MIN_MESSAGE_SIZE: usize = 1;

/// Fewest bytes of a username.
pub const MIN_USERNAME_LENGTH: usize = 4;

/// Most bytes of a username.
pub const MAX_USERNAME_LENGTH: usize = 32;

/// Most bytes of a status message.
pub const MAX_STATUS_LENGTH: usize = 512;

/// Bytes of a short id: the tail of an identity's fingerprint.
pub const SHORT_ID_SIZE: usize = 8;

/// Entries a page of a message reference list holds before a new page is started.
pub const REFERENCE_LENGTH: usize = 500;

} // verus!
