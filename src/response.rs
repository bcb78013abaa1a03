use vstd::prelude::*;

use crate::error::Error;

verus! {

/// What a client is told of a failure; the details stay on the server.
#[derive(Debug, Clone, Copy, PartialEq, Eq, Structural)]
pub enum ClientError {
    NoAuth,
    InvalidParams,
}

/// The status and the client-side error that answer a failed request.
#[derive(Debug, Clone, Copy, PartialEq, Eq, Structural)]
pub struct ClientFailure {
    pub status: u16,
    pub client_error: ClientError,
}

pub open spec fn client_failure_spec(e: Error) -> ClientFailure {
    match e {
        Error::AuthFailNoAuthTokenCookie | Error::AuthFailTokenWrongFormat => ClientFailure {
            status: 401,
            client_error: ClientError::NoAuth,
        },
        Error::TicketDeleteFailIdNotFound { .. } => ClientFailure {
            status: 404,
            client_error: ClientError::InvalidParams,
        },
    }
}

pub open spec fn client_error_text(c: ClientError) -> Seq<char> {
    match c {
        ClientError::NoAuth => "NO_AUTH"@,
        ClientError::InvalidParams => "INVALID_PARAMS"@,
    }
}

impl Error {
    /// The status and client-side error that this error is answered with:
    /// 401 for a missing or malformed token, 404 for an unknown ticket.
    pub fn client_status_and_error(&self) -> (r: ClientFailure)
        ensures
            r == client_failure_spec(*self),
    {
        match self {
            Error::AuthFailNoAuthTokenCookie | Error::AuthFailTokenWrongFormat => ClientFailure {
                status: 401,
                client_error: ClientError::NoAuth,
            },
            Error::TicketDeleteFailIdNotFound { .. } => ClientFailure {
                status: 404,
                client_error: ClientError::InvalidParams,
            },
        }
    }
}

impl ClientError {
    /// The name under which the client sees this error.
    pub fn as_str(&self) -> (r: &'static str)
        ensures
            r@ == client_error_text(*self),
    {
        match self {
            ClientError::NoAuth => "NO_AUTH",
            ClientError::InvalidParams => "INVALID_PARAMS",
        }
    }
}

/// What the last stage of the pipeline makes of a request's outcome: the
/// failure to send where the request failed, nothing (the response passes
/// through unchanged) where it did not.
pub fn main_response_mapper(error: Option<Error>) -> (r: Option<ClientFailure>)
    ensures
        match error {
            Some(e) => r == Some(client_failure_spec(e)),
            None => r is None,
        },
{
    match error {
        Some(e) => Some(e.client_status_and_error()),
        None => None,
    }
}

} // verus!
