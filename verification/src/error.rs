use vstd::prelude::*;

verus! {

/// Errors produced by the store's document logic.
#[derive(Debug, PartialEq, Eq)]
pub enum Error {
    MessageFound,
    MessageNotFound,
    EmptyMessage,
    FileNotFound,
    FileExist,
    PageNotFound,
    PublicKeyInvalid,
    PublicKeyDoesntExist,
    DecryptionError,
    InvalidSignature,
    InvalidMessage,
    InvalidConversion,
    /// Text that is not valid base58.
    Bs58Error,
    SerdeJsonError,
    ReactionExist,
    ReactionDoesntExist,
    IdentityInvalid,
    IdentityExist,
    IdentityDoesntExist,
    FriendExist,
    FriendDoesntExist,
    FriendRequestExist,
    FriendRequestDoesntExist,
    CannotFindFriendRequest,
    CannotSendSelfFriendRequest,
    CannotAcceptSelfAsFriend,
    CannotDenySelfAsFriend,
    CannotBlockOwnKey,
    CannotUnblockOwnKey,
    BlockedByUser,
    CannotCreateConversation,
    InvalidConversation,
    PublicKeyIsBlocked,
    PublicKeyIsntBlocked,
    /// A direct conversation with this peer exists: its id.
    ConversationExist {
        conversation: u128,
    },
    Other,
    /// A length that falls outside its bounds.
    InvalidLength {
        context: String,
        current: usize,
        minimum: Option<usize>,
        maximum: Option<usize>,
    },
    OtherWithContext(String),
}

/// `e` is a length error with this context and these numbers.
pub open spec fn is_length_error(e: Error, context: Seq<char>, current: usize, minimum: Option<usize>, maximum: Option<usize>) -> bool {
    e matches Error::InvalidLength { context: c, current: n, minimum: lo, maximum: hi } && c@ == context && n == current
        && lo == minimum && hi == maximum
}

/// `r` failed with a length error with this context and these numbers.
pub open spec fn is_length_err<T>(
    r: Result<T, Error>,
    context: Seq<char>,
    current: usize,
    minimum: Option<usize>,
    maximum: Option<usize>,
) -> bool {
    r matches Err(e) && is_length_error(e, context, current, minimum, maximum)
}

} // verus!
