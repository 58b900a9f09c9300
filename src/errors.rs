use vstd::prelude::*;
use vstd::string::*;

verus! {

/// The failures a request on the group session layer can end in.
#[derive(Debug, Clone, PartialEq, Eq)]
pub enum AppError {
    /// The store failed; holds the store's own message.
    Database(String),
    GroupNotFound,
    NameTaken,
    GroupAlreadyGenerated,
    /// The user already is a member of the group.
    AlreadyMember,
    InvalidInput(String),
    /// The socket layer failed; holds its message.
    WebSocket(String),
}

pub const STATUS_BAD_REQUEST: u16 = 400;

pub const STATUS_NOT_FOUND: u16 = 404;

pub const STATUS_INTERNAL_SERVER_ERROR: u16 = 500;

/// The HTTP status that reports `e`.
pub open spec fn status_of(e: AppError) -> u16 {
    match e {
        AppError::Database(_) | AppError::WebSocket(_) => STATUS_INTERNAL_SERVER_ERROR,
        AppError::GroupNotFound => STATUS_NOT_FOUND,
        _ => STATUS_BAD_REQUEST,
    }
}

/// The message that reports `e` to the client.
pub open spec fn message_of(e: AppError) -> Seq<char> {
    match e {
        AppError::Database(m) => m@,
        AppError::GroupNotFound => "Group not found"@,
        AppError::NameTaken => "Name already taken in this group"@,
        AppError::GroupAlreadyGenerated =>
            "Cannot join group - Secret Santas have already been generated"@,
        AppError::AlreadyMember => "Already a member of this group"@,
        AppError::InvalidInput(m) => m@,
        AppError::WebSocket(m) => m@,
    }
}

impl AppError {
    /// The HTTP status and the error message that report this error.
    pub fn status_and_message(self) -> (r: (u16, String))
        ensures
            r.0 == status_of(self),
            r.1@ == message_of(self),
    {
        match self {
            AppError::Database(m) => (STATUS_INTERNAL_SERVER_ERROR, m),
            AppError::GroupNotFound => (STATUS_NOT_FOUND, String::from_str("Group not found")),
            AppError::NameTaken => (
                STATUS_BAD_REQUEST,
                String::from_str("Name already taken in this group"),
            ),
            AppError::GroupAlreadyGenerated => (
                STATUS_BAD_REQUEST,
                String::from_str("Cannot join group - Secret Santas have already been generated"),
            ),
            AppError::AlreadyMember => (
                STATUS_BAD_REQUEST,
                String::from_str("Already a member of this group"),
            ),
            AppError::InvalidInput(m) => (STATUS_BAD_REQUEST, m),
            AppError::WebSocket(m) => (STATUS_INTERNAL_SERVER_ERROR, m),
        }
    }
}

} // verus!
