use vstd::prelude::*;

use crate::error::Error;
use crate::token::{parse_spec, Token};

verus! {

/// What the guard decides for a request whose authentication cookie holds
/// `auth_token` (`None` where the cookie is absent): the request's token, or
/// the error that ends the request.
pub open spec fn require_auth_spec(auth_token: Option<Seq<char>>) -> Result<
    (nat, Seq<char>, Seq<char>),
    Error,
> {
    match auth_token {
        None => Err(Error::AuthFailNoAuthTokenCookie),
        Some(s) => match parse_spec(s) {
            Some(fields) => Ok(fields),
            None => Err(Error::AuthFailTokenWrongFormat),
        },
    }
}

/// The content of an optional cookie.
pub open spec fn cookie_view(auth_token: Option<&str>) -> Option<Seq<char>> {
    match auth_token {
        Some(s) => Some(s@),
        None => None,
    }
}

/// The authentication guard: lets a request through only where it carries a
/// well-formed token, and hands that token on.
pub fn mw_require_auth(auth_token: Option<&str>) -> (r: Result<Token, Error>)
    ensures
        match r {
            Ok(t) => require_auth_spec(cookie_view(auth_token)) == Ok::<_, Error>(
                (t.user_id as nat, t.expiration@, t.signature@),
            ),
            Err(e) => require_auth_spec(cookie_view(auth_token)) == Err::<
                (nat, Seq<char>, Seq<char>),
                _,
            >(e),
        },
{
    match auth_token {
        None => Err(Error::AuthFailNoAuthTokenCookie),
        Some(s) => Token::parse(s),
    }
}

} // verus!
