//! The answers of the HTTP interface.

use vstd::prelude::*;

verus! {

/// The status of an answer.
#[derive(Clone, Copy, Debug, PartialEq, Eq, Structural)]
pub enum Status {
    Okay,
    Created,
    Accepted,
    NoContent,
    NotModified,
    BadRequest,
    Unauthorized,
    Forbidden,
    NotFound,
    RequestTimeout,
    Conflict,
    PayloadTooLarge,
    UnsupportedMediaType,
    TooManyRequests,
    InternalServerError,
    ServiceUnavailable,
    InsufficientStorage,
}

impl Status {
    /// The number that stands for the status on the wire.
    pub open spec fn number(self) -> u16 {
        match self {
            Status::Okay => 200,
            Status::Created => 201,
            Status::Accepted => 202,
            Status::NoContent => 204,
            Status::NotModified => 304,
            Status::BadRequest => 400,
            Status::Unauthorized => 401,
            Status::Forbidden => 403,
            Status::NotFound => 404,
            Status::RequestTimeout => 408,
            Status::Conflict => 409,
            Status::PayloadTooLarge => 413,
            Status::UnsupportedMediaType => 415,
            Status::TooManyRequests => 429,
            Status::InternalServerError => 500,
            Status::ServiceUnavailable => 503,
            Status::InsufficientStorage => 507,
        }
    }

    pub fn code(self) -> (r: u16)
        ensures
            r == self.number(),
    {
        match self {
            Status::Okay => 200,
            Status::Created => 201,
            Status::Accepted => 202,
            Status::NoContent => 204,
            Status::NotModified => 304,
            Status::BadRequest => 400,
            Status::Unauthorized => 401,
            Status::Forbidden => 403,
            Status::NotFound => 404,
            Status::RequestTimeout => 408,
            Status::Conflict => 409,
            Status::PayloadTooLarge => 413,
            Status::UnsupportedMediaType => 415,
            Status::TooManyRequests => 429,
            Status::InternalServerError => 500,
            Status::ServiceUnavailable => 503,
            Status::InsufficientStorage => 507,
        }
    }
}


/// No two statuses share a number, and the hundreds tell what kind of answer it is: what
/// was asked for, a redirection, a fault of the request or one of the daemon.
pub proof fn law_numbers_tell_the_kind_of_answer(status: Status, other: Status)
    ensures
        status.number() == other.number() ==> status == other,
        status.number() / 100 == 2 <==> status is Okay || status is Created || status is Accepted
            || status is NoContent,
        status.number() / 100 == 3 <==> status is NotModified,
        status.number() / 100 == 5 <==> status is InternalServerError
            || status is ServiceUnavailable || status is InsufficientStorage,
        2 <= status.number() / 100 <= 5,
{
}

} // verus!
