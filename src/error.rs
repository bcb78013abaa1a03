use vstd::prelude::*;

verus! {

/// Every failure that the core reports to its caller.
#[derive(Debug, Clone, Copy, PartialEq, Eq, Structural)]
pub enum Error {
    /// The request carried no authentication cookie.
    AuthFailNoAuthTokenCookie,
    /// The authentication cookie does not have the shape `user-<id>.<exp>.<sig>`.
    AuthFailTokenWrongFormat,
    /// No ticket with this id is stored.
    TicketDeleteFailIdNotFound { id: u64 },
}

} // verus!
