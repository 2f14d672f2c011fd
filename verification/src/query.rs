//! What the read-only requests decide before they read.

use crate::auth::Auth;
use crate::http_server::{HttpError, HttpErrorView};
use crate::registry::{takes_part, Act, ActView, Registry, RegistryView, StarterView};
use crate::search::any;
use vstd::prelude::*;

verus! {

/// The club that a request is about: the one it names, or else the club of
/// the caller. There may be neither.
pub open spec fn club_asked_for(named: Option<u128>, auth: Option<Auth>) -> Option<u128> {
    match named {
        Some(c) => Some(c),
        None => match auth {
            Some(a) => a.club_id,
            None => None,
        },
    }
}

/// The club that a request is about; not found if it names none and the
/// caller has none.
pub fn requested_club(named: Option<u128>, auth: &Option<Auth>) -> (res: Result<u128, HttpError>)
    ensures
        match club_asked_for(named, *auth) {
            Some(c) => res is Ok && res.unwrap() == c,
            None => res is Err && res.unwrap_err()@ == HttpErrorView::NotFound,
        },
{
    let mut club_id = named;
    if let Some(a) = auth {
        if club_id.is_none() {
            club_id = a.club_id;
        }
    }
    match club_id {
        Some(c) => Ok(c),
        None => Err(HttpError::NotFound),
    }
}

/// Lets an administrator pass; anyone else, and nobody, has invalid
/// credentials.
pub fn require_admin(auth: &Option<Auth>) -> (res: Result<(), HttpError>)
    ensures
        res is Ok <==> (*auth matches Some(a) && a.is_admin),
        res matches Err(e) ==> e@ == HttpErrorView::InvalidCredentials,
{
    match auth {
        Some(a) => if a.is_admin() {
            Ok(())
        } else {
            Err(HttpError::InvalidCredentials)
        },
        None => Err(HttpError::InvalidCredentials),
    }
}

/// A participant of the act who goes for the special award in the act's kind.
pub open spec fn award_seeker(act: ActView) -> spec_fn(StarterView) -> bool {
    |s: StarterView|
        act.participants.contains(s.id) && (if act.is_pair {
            s.pair_sonderpokal
        } else {
            s.single_sonderpokal
        })
}

/// Whether an act goes for the special award: some participant does, in the
/// act's kind.
pub open spec fn goes_for_award(reg: RegistryView, act: ActView) -> bool {
    any(reg.starters, award_seeker(act))
}

/// Whether an act goes for the special award.
pub fn is_sonderpokal(db: &Registry, act: &Act) -> (res: bool)
    ensures
        res == goes_for_award(db@, act@),
{
    let mut i: usize = 0;
    while i < db.starters.len()
        invariant
            i <= db.starters.len(),
            forall|j: int| 0 <= j < i ==> !award_seeker(act@)(#[trigger] db@.starters[j]),
        decreases db.starters.len() - i,
    {
        let s = &db.starters[i];
        let flag = if act.is_pair {
            s.pair_sonderpokal
        } else {
            s.single_sonderpokal
        };
        if flag && takes_part(&act.participants, s.id) {
            assert(award_seeker(act@)(db@.starters[i as int]));
            return true;
        }
        i = i + 1;
    }
    false
}

} // verus!
