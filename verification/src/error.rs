//! The error that every failing operation answers with: an HTTP status code
//! and a human-readable message.
use vstd::prelude::*;

verus! {

pub const BAD_REQUEST: u16 = 400;
pub const UNAUTHORIZED: u16 = 401;
pub const FORBIDDEN: u16 = 403;
pub const NOT_FOUND: u16 = 404;
pub const CONFLICT: u16 = 409;
pub const INTERNAL_SERVER_ERROR: u16 = 500;

/// An error answered to a client: the HTTP status and the message.
#[derive(Debug)]
pub struct AppError {
    pub status: u16,
    pub message: String,
}

pub type AppResult<T> = Result<T, AppError>;

/// The body sent in place of the message of an internal error.
pub open spec fn internal_error_text() -> Seq<char> {
    "Внутренняя ошибка сервера"@
}

/// Whether `e` carries the given status and message.
pub open spec fn is_error(e: AppError, status: u16, message: Seq<char>) -> bool {
    e.status == status && e.message@ == message
}

/// Whether `r` is an error with the given status and message.
pub open spec fn fails_with<T>(r: AppResult<T>, status: u16, message: Seq<char>) -> bool {
    r matches Err(e) && is_error(e, status, message)
}

impl AppError {
    pub fn new(status: u16, message: &str) -> (e: AppError)
        ensures
            is_error(e, status, message@),
    {
        AppError { status, message: message.to_owned() }
    }

    pub fn internal(message: &str) -> (e: AppError)
        ensures
            is_error(e, INTERNAL_SERVER_ERROR, message@),
    {
        AppError::new(INTERNAL_SERVER_ERROR, message)
    }

    /// The text that goes to the client: the message itself, except for an
    /// internal error, whose details stay on the server.
    pub fn public_message(&self) -> (m: String)
        ensures
            m@ == (if self.status == INTERNAL_SERVER_ERROR {
                internal_error_text()
            } else {
                self.message@
            }),
    {
        if self.status == INTERNAL_SERVER_ERROR {
            "Внутренняя ошибка сервера".to_owned()
        } else {
            self.message.clone()
        }
    }

    /// Whether the details of this error belong in the server's log rather
    /// than in the answer.
    pub fn is_internal(&self) -> (r: bool)
        ensures
            r == (self.status == INTERNAL_SERVER_ERROR),
    {
        self.status == INTERNAL_SERVER_ERROR
    }
}

} // verus!
