//! What the system allows at a given time.

use crate::auth::Auth;
use crate::clock::unix_now;
use vstd::prelude::*;

verus! {

/// What a caller may do.
#[derive(Clone, Copy, Debug, PartialEq, Eq, Structural)]
pub struct Capabilities {
    pub can_register: bool,
    pub can_create_club: bool,
    pub can_register_starter: bool,
    pub can_register_judge: bool,
    pub can_upload_music: bool,
}

impl Capabilities {
    /// Everything is allowed.
    pub open spec fn spec_all() -> Capabilities {
        Capabilities {
            can_register: true,
            can_create_club: true,
            can_register_starter: true,
            can_register_judge: true,
            can_upload_music: true,
        }
    }

    /// Everything is allowed.
    pub fn all() -> (res: Capabilities)
        ensures
            res == Capabilities::spec_all(),
    {
        Capabilities {
            can_register: true,
            can_create_club: true,
            can_register_starter: true,
            can_register_judge: true,
            can_upload_music: true,
        }
    }

    /// What the caller may do at the time `now`: an administrator everything,
    /// anyone else what the periods allow.
    pub fn granted_at(auth: &Option<Auth>, options: &StatusOptions, now: i64) -> (res:
        Capabilities)
        ensures
            res == granted(*auth, *options, now),
    {
        if let Some(a) = auth {
            if a.is_admin() {
                return Capabilities::all();
            }
        }
        options.status_at(now)
    }

    /// What the caller may do at the current time of the system clock.
    pub fn granted_to(auth: &Option<Auth>, options: &StatusOptions) -> (res: Capabilities)
        ensures
            exists|now: i64| res == granted(*auth, *options, now),
    {
        let now = unix_now();
        Capabilities::granted_at(auth, options, now)
    }
}

/// What a caller may do at the time `now`.
pub open spec fn granted(auth: Option<Auth>, options: StatusOptions, now: i64) -> Capabilities {
    match auth {
        Some(a) => if a.is_admin {
            Capabilities::spec_all()
        } else {
            options.spec_status_at(now)
        },
        None => options.spec_status_at(now),
    }
}

/// The registration period and the end of the music upload, in seconds since
/// the Unix epoch.
#[derive(Clone, Copy, Debug, PartialEq, Eq, Structural)]
pub struct StatusOptions {
    pub start_register_date: i64,
    pub end_register_date: i64,
    pub end_music_upload_date: i64,
}

impl StatusOptions {
    /// What the periods allow at the time `now`.
    pub open spec fn spec_status_at(self, now: i64) -> Capabilities {
        let in_register_period = self.start_register_date <= now <= self.end_register_date;
        Capabilities {
            can_register: in_register_period,
            can_create_club: in_register_period,
            can_register_starter: in_register_period,
            can_register_judge: in_register_period,
            can_upload_music: now <= self.end_music_upload_date,
        }
    }

    /// What the periods allow at the time `now`: registration of any kind from
    /// the start to the end of the registration period, both included, and
    /// music upload up to its end.
    pub fn status_at(&self, now: i64) -> (res: Capabilities)
        ensures
            res == self.spec_status_at(now),
    {
        let in_register_period = now >= self.start_register_date && now <= self.end_register_date;
        Capabilities {
            can_register: in_register_period,
            can_create_club: in_register_period,
            can_register_starter: in_register_period,
            can_register_judge: in_register_period,
            can_upload_music: now <= self.end_music_upload_date,
        }
    }

    /// What the periods allow at the current time of the system clock.
    pub fn get_system_status(&self) -> (res: Capabilities)
        ensures
            exists|now: i64| res == self.spec_status_at(now),
    {
        let now = unix_now();
        self.status_at(now)
    }
}

} // verus!
