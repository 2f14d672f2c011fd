//! The authenticated identity of a request.

use crate::http_server::{FORBIDDEN, INTERNAL_SERVER_ERROR, UNAUTHORIZED};
use vstd::prelude::*;

verus! {

/// Who makes a request.
#[derive(Clone, Debug, PartialEq, Eq)]
pub struct Auth {
    pub user_id: u128,
    pub email: String,
    pub name: String,
    pub is_admin: bool,
    pub club_id: Option<u128>,
    pub email_verified: bool,
}

impl Auth {
    /// Whether the caller is an administrator.
    pub fn is_admin(&self) -> (res: bool)
        ensures
            res == self.is_admin,
    {
        self.is_admin
    }
}

/// Why a request has no identity.
#[derive(Clone, Copy, Debug, PartialEq, Eq, Structural)]
pub enum Error {
    AdminRequired,
    CookiesMissing,
    JwtMissing,
    JwtInvalid,
    UserNotFound,
}

impl Error {
    /// The number of the HTTP status with which the failure is answered.
    pub open spec fn spec_status(self) -> u16 {
        match self {
            Error::AdminRequired => FORBIDDEN,
            Error::CookiesMissing | Error::JwtInvalid | Error::JwtMissing => UNAUTHORIZED,
            Error::UserNotFound => INTERNAL_SERVER_ERROR,
        }
    }

    /// The text with which the failure is answered.
    pub open spec fn spec_message(self) -> Seq<char> {
        match self {
            Error::AdminRequired => "Admin required"@,
            Error::CookiesMissing => "Cookies missing"@,
            Error::JwtMissing => "JWT missing"@,
            Error::JwtInvalid => "JWT invalid"@,
            Error::UserNotFound => "User not found"@,
        }
    }

    /// The number of the HTTP status with which the failure is answered.
    pub fn status(&self) -> (res: u16)
        ensures
            res == self.spec_status(),
    {
        match self {
            Error::AdminRequired => FORBIDDEN,
            Error::CookiesMissing | Error::JwtInvalid | Error::JwtMissing => UNAUTHORIZED,
            Error::UserNotFound => INTERNAL_SERVER_ERROR,
        }
    }

    /// The text with which the failure is answered.
    pub fn message(&self) -> (res: String)
        ensures
            res@ == self.spec_message(),
    {
        match self {
            Error::AdminRequired => "Admin required".to_owned(),
            Error::CookiesMissing => "Cookies missing".to_owned(),
            Error::JwtMissing => "JWT missing".to_owned(),
            Error::JwtInvalid => "JWT invalid".to_owned(),
            Error::UserNotFound => "User not found".to_owned(),
        }
    }
}

/// The identity that a request must have: the one the extraction found, or
/// the failure of a request without a token.
pub fn require_auth(found: Result<Option<Auth>, Error>) -> (res: Result<Auth, Error>)
    ensures
        res == match found {
            Ok(Some(auth)) => Ok::<Auth, Error>(auth),
            Ok(None) => Err(Error::JwtMissing),
            Err(e) => Err(e),
        },
{
    match found {
        Ok(Some(auth)) => Ok(auth),
        Ok(None) => Err(Error::JwtMissing),
        Err(e) => Err(e),
    }
}

} // verus!
