//! What the viewer answers when a request cannot be served.

use vstd::prelude::*;
use vstd::string::*;

verus! {

/// An error of the database library, of which only the text is used.
#[verifier::external_type_specification]
#[verifier::external_body]
pub struct ExDatabaseError(rusqlite::Error);

/// An error of the JSON library, of which only the text is used.
#[verifier::external_type_specification]
#[verifier::external_body]
pub struct ExJsonError(serde_json::Error);

/// The kinds of refusal, by the HTTP status that reports them.
#[derive(Clone, Copy, Debug, PartialEq, Eq, Structural)]
pub enum Status {
    /// The request, or the database or file it is about, is at fault.
    BadRequest,
    /// Something failed on the way.
    InternalServerError,
}

impl Status {
    /// The number of the status.
    pub open spec fn spec_code(self) -> u16 {
        match self {
            Status::BadRequest => 400,
            Status::InternalServerError => 500,
        }
    }

    /// The number of the status.
    pub fn code(self) -> (code: u16)
        ensures
            code == self.spec_code(),
            self is BadRequest ==> code == 400,
            self is InternalServerError ==> code == 500,
    {
        match self {
            Status::BadRequest => 400,
            Status::InternalServerError => 500,
        }
    }
}

/// A refusal: its status, and the message for the page.
#[derive(Debug, PartialEq, Eq)]
pub struct AppError {
    pub status: Status,
    pub message: String,
}

impl AppError {
    /// Whether this is a refusal of a bad request with the message `message`.
    pub open spec fn refuses(self, message: Seq<char>) -> bool {
        self.status is BadRequest && self.message@ == message
    }

    /// Refuses a bad request.
    pub fn bad_request(message: String) -> (error: AppError)
        ensures
            error.status is BadRequest,
            error.message == message,
    {
        AppError { status: Status::BadRequest, message }
    }
}

impl From<rusqlite::Error> for AppError {
    /// A failure of the database: the message is the text that the error displays.
    fn from(value: rusqlite::Error) -> (error: AppError)
        ensures
            error.status is InternalServerError,
            to_string_from_display_ensures(&value, error.message),
    {
        AppError { status: Status::InternalServerError, message: value.to_string() }
    }
}

impl vstd::std_specs::convert::FromSpecImpl<rusqlite::Error> for AppError {
    open spec fn obeys_from_spec() -> bool {
        false
    }

    open spec fn from_spec(value: rusqlite::Error) -> AppError {
        arbitrary()
    }
}

impl From<serde_json::Error> for AppError {
    /// A failure to write JSON: the message is the text that the error displays.
    fn from(value: serde_json::Error) -> (error: AppError)
        ensures
            error.status is InternalServerError,
            to_string_from_display_ensures(&value, error.message),
    {
        AppError { status: Status::InternalServerError, message: value.to_string() }
    }
}

impl vstd::std_specs::convert::FromSpecImpl<serde_json::Error> for AppError {
    open spec fn obeys_from_spec() -> bool {
        false
    }

    open spec fn from_spec(value: serde_json::Error) -> AppError {
        arbitrary()
    }
}

/// A refusal of a bad request reports that the request is at fault, and says nothing but its message.
pub proof fn law_refusal_reports_a_bad_request(error: AppError, message: Seq<char>)
    ensures
        error.refuses(message) <==> error.status == Status::BadRequest && error.message@ == message,
{
}

} // verus!
