//! The broker's settings.

use crate::models::Role;
use vstd::prelude::*;

verus! {

/// What is configured for one player role: how many connections may hold it
/// at once, and for how many seconds a queue entry stays before it lapses,
/// where entries lapse at all.
#[derive(Clone, Copy, Debug)]
pub struct RolePolicy {
    pub capacity: usize,
    pub grace_period: Option<u64>,
}

/// The broker's settings: the policy of each player role and the password
/// that admin roles ask for.
#[derive(Debug)]
pub struct Config {
    pub pong: RolePolicy,
    pub display: RolePolicy,
    pub password: String,
}

impl Config {
    /// Every player role has at least one slot.
    pub open spec fn wf(&self) -> bool {
        self.pong.capacity >= 1 && self.display.capacity >= 1
    }

    /// How many connections may hold the role at once; `None` where the role
    /// is not limited.
    pub open spec fn capacity(&self, role: Role) -> Option<nat> {
        match role {
            Role::Observer => None,
            Role::PlayerPong => Some(self.pong.capacity as nat),
            Role::PlayerDisplay => Some(self.display.capacity as nat),
            Role::AdminPong => Some(1nat),
            Role::AdminDisplay => Some(1nat),
        }
    }

    /// The grace period of the role's queue entries. Only a player role with
    /// a single slot has one, and only where its policy names one.
    pub open spec fn grace(&self, role: Role) -> Option<u64> {
        match role {
            Role::PlayerPong => if self.pong.capacity == 1 {
                self.pong.grace_period
            } else {
                None
            },
            Role::PlayerDisplay => if self.display.capacity == 1 {
                self.display.grace_period
            } else {
                None
            },
            _ => None,
        }
    }

    /// What a request presents as its password: the text it carries, or a
    /// lone underscore where it carries none.
    pub open spec fn presented(credential: Option<Seq<char>>) -> Seq<char> {
        match credential {
            Some(text) => text,
            None => "_"@,
        }
    }

    /// Whether the credential opens the admin roles.
    pub open spec fn admits(&self, credential: Option<Seq<char>>) -> bool {
        Config::presented(credential) == self.password@
    }

    /// The settings with the given policies and password, unless a player
    /// role is left without a slot.
    pub fn new(pong: RolePolicy, display: RolePolicy, password: String) -> (config: Option<Config>)
        ensures
            match config {
                Some(c) => {
                    &&& pong.capacity >= 1
                    &&& display.capacity >= 1
                    &&& c.wf()
                    &&& c.pong == pong
                    &&& c.display == display
                    &&& c.password@ == password@
                },
                None => pong.capacity == 0 || display.capacity == 0,
            },
    {
        if pong.capacity == 0 || display.capacity == 0 {
            None
        } else {
            Some(Config { pong, display, password })
        }
    }

    /// The usual settings: two slots for `PlayerPong`, whose queue entries
    /// stay; one slot for `PlayerDisplay`, whose queue entries lapse after ten
    /// seconds.
    pub fn standard(password: String) -> (config: Config)
        ensures
            config.wf(),
            config.pong == (RolePolicy { capacity: 2, grace_period: None }),
            config.display == (RolePolicy { capacity: 1, grace_period: Some(10u64) }),
            config.password@ == password@,
    {
        Config {
            pong: RolePolicy { capacity: 2, grace_period: None },
            display: RolePolicy { capacity: 1, grace_period: Some(10) },
            password,
        }
    }

    pub fn slots(&self, role: Role) -> (slots: Option<usize>)
        ensures
            match slots {
                Some(k) => self.capacity(role) == Some(k as nat),
                None => self.capacity(role).is_none(),
            },
    {
        match role {
            Role::Observer => None,
            Role::PlayerPong => Some(self.pong.capacity),
            Role::PlayerDisplay => Some(self.display.capacity),
            Role::AdminPong => Some(1),
            Role::AdminDisplay => Some(1),
        }
    }

    pub fn grace_period(&self, role: Role) -> (grace: Option<u64>)
        ensures
            grace == self.grace(role),
    {
        match role {
            Role::PlayerPong => if self.pong.capacity == 1 {
                self.pong.grace_period
            } else {
                None
            },
            Role::PlayerDisplay => if self.display.capacity == 1 {
                self.display.grace_period
            } else {
                None
            },
            _ => None,
        }
    }

    /// The password check.
    pub fn check(&self, credential: Option<&str>) -> (ok: bool)
        ensures
            ok == self.admits(
                match credential {
                    Some(text) => Some(text@),
                    None => None,
                },
            ),
    {
        let presented = match credential {
            Some(text) => text,
            None => "_",
        };
        presented.eq(self.password.as_str())
    }
}

} // verus!
