//! The claims of a session token.

use vstd::prelude::*;

verus! {

/// For how long a session token is valid: six months of thirty-one days, in
/// seconds.
pub const VALIDITY_SECONDS: u64 = 16070400;

/// The claims of a session token: the user and the time at which the token
/// expires, in seconds since the Unix epoch.
#[derive(Clone, Copy, Debug, PartialEq, Eq, Structural)]
pub struct JWTClaims {
    sub: u128,
    exp: u64,
}

impl JWTClaims {
    /// The user.
    pub closed spec fn spec_sub(self) -> u128 {
        self.sub
    }

    /// The time at which the token expires.
    pub closed spec fn spec_exp(self) -> u64 {
        self.exp
    }

    /// The claims of a token for the user `sub` that expires at `exp`.
    #[must_use]
    pub fn new(sub: u128, exp: u64) -> (res: Self)
        ensures
            res.spec_sub() == sub,
            res.spec_exp() == exp,
    {
        Self { sub, exp }
    }

    /// The user.
    #[must_use]
    pub fn sub(&self) -> (res: u128)
        ensures
            res == self.spec_sub(),
    {
        self.sub
    }

    /// The time at which the token expires.
    #[must_use]
    pub fn exp(&self) -> (res: u64)
        ensures
            res == self.spec_exp(),
    {
        self.exp
    }

    /// The claims of a token issued to the user at the time `now`; `None` if
    /// the time of expiry is no 64-bit number.
    pub fn issued_at(user_id: u128, now: u64) -> (res: Option<Self>)
        ensures
            match res {
                Some(claims) => claims.spec_sub() == user_id && claims.spec_exp() == now
                    + VALIDITY_SECONDS,
                None => now + VALIDITY_SECONDS > u64::MAX,
            },
    {
        match now.checked_add(VALIDITY_SECONDS) {
            Some(exp) => Some(Self { sub: user_id, exp }),
            None => None,
        }
    }
}

} // verus!
