//! Roles, connection records and the messages that clients send.

use vstd::prelude::*;

verus! {

/// `str`'s equality test is taken to compare the two texts character by
/// character.
pub assume_specification[ <str as PartialEq>::eq ](a: &str, b: &str) -> (same: bool)
    ensures
        same == (a@ == b@),
;

/// The category a connection occupies. `Observer` is the default and is never
/// limited; each admin role is held by at most one connection; each player
/// role has a configured number of slots and is paired with one admin role.
#[derive(Clone, Copy, Debug, PartialEq, Eq, Structural)]
pub enum Role {
    Observer,
    PlayerPong,
    PlayerDisplay,
    AdminPong,
    AdminDisplay,
}

impl Role {
    pub open spec fn is_admin(self) -> bool {
        self == Role::AdminPong || self == Role::AdminDisplay
    }

    pub open spec fn is_player(self) -> bool {
        self == Role::PlayerPong || self == Role::PlayerDisplay
    }

    /// The admin role that a player role reports to; no other role reports
    /// to anyone.
    pub open spec fn paired_admin(self) -> Option<Role> {
        match self {
            Role::PlayerPong => Some(Role::AdminPong),
            Role::PlayerDisplay => Some(Role::AdminDisplay),
            _ => None,
        }
    }

    /// The player role that an admin role speaks to.
    pub open spec fn paired_player(self) -> Option<Role> {
        match self {
            Role::AdminPong => Some(Role::PlayerPong),
            Role::AdminDisplay => Some(Role::PlayerDisplay),
            _ => None,
        }
    }

    /// The role's name on the wire.
    pub open spec fn name(self) -> Seq<char> {
        match self {
            Role::Observer => "Observer"@,
            Role::PlayerPong => "PlayerPong"@,
            Role::PlayerDisplay => "PlayerDisplay"@,
            Role::AdminPong => "AdminPong"@,
            Role::AdminDisplay => "AdminDisplay"@,
        }
    }

    /// The role that a wire name stands for: the four limited roles answer to
    /// their names, every other text stands for `Observer`.
    pub open spec fn named(name: Seq<char>) -> Role {
        if name == "PlayerPong"@ {
            Role::PlayerPong
        } else if name == "PlayerDisplay"@ {
            Role::PlayerDisplay
        } else if name == "AdminPong"@ {
            Role::AdminPong
        } else if name == "AdminDisplay"@ {
            Role::AdminDisplay
        } else {
            Role::Observer
        }
    }

    pub fn admin(self) -> (yes: bool)
        ensures
            yes == self.is_admin(),
    {
        match self {
            Role::AdminPong | Role::AdminDisplay => true,
            _ => false,
        }
    }

    pub fn player(self) -> (yes: bool)
        ensures
            yes == self.is_player(),
    {
        match self {
            Role::PlayerPong | Role::PlayerDisplay => true,
            _ => false,
        }
    }

    pub fn admin_for(self) -> (admin: Option<Role>)
        ensures
            admin == self.paired_admin(),
    {
        match self {
            Role::PlayerPong => Some(Role::AdminPong),
            Role::PlayerDisplay => Some(Role::AdminDisplay),
            _ => None,
        }
    }

    pub fn player_for(self) -> (player: Option<Role>)
        ensures
            player == self.paired_player(),
    {
        match self {
            Role::AdminPong => Some(Role::PlayerPong),
            Role::AdminDisplay => Some(Role::PlayerDisplay),
            _ => None,
        }
    }

    pub fn as_str(self) -> (text: &'static str)
        ensures
            text@ == self.name(),
    {
        match self {
            Role::Observer => "Observer",
            Role::PlayerPong => "PlayerPong",
            Role::PlayerDisplay => "PlayerDisplay",
            Role::AdminPong => "AdminPong",
            Role::AdminDisplay => "AdminDisplay",
        }
    }

    pub fn from_name(name: &str) -> (role: Role)
        ensures
            role == Role::named(name@),
    {
        if name.eq("PlayerPong") {
            Role::PlayerPong
        } else if name.eq("PlayerDisplay") {
            Role::PlayerDisplay
        } else if name.eq("AdminPong") {
            Role::AdminPong
        } else if name.eq("AdminDisplay") {
            Role::AdminDisplay
        } else {
            Role::Observer
        }
    }

    /// Reading a role's own wire name gives the role back.
    pub proof fn name_round_trip(role: Role)
        ensures
            Role::named(role.name()) == role,
    {
        reveal_strlit("Observer");
        reveal_strlit("PlayerPong");
        reveal_strlit("PlayerDisplay");
        reveal_strlit("AdminPong");
        reveal_strlit("AdminDisplay");
        assert("Observer"@.len() == 8);
        assert("PlayerPong"@.len() == 10);
        assert("PlayerDisplay"@.len() == 13);
        assert("AdminPong"@.len() == 9);
        assert("AdminDisplay"@.len() == 12);
    }
}

impl std::str::FromStr for Role {
    type Err = ();

    fn from_str(s: &str) -> (parsed: Result<Role, ()>)
        ensures
            parsed == Ok::<Role, ()>(Role::named(s@)),
    {
        Ok(Role::from_name(s))
    }
}

/// A connection's record as it reads in contracts.
pub struct ConnectionView {
    pub id: Seq<char>,
    pub role: Role,
    pub que: bool,
    pub sequence: u64,
    pub clear_at: Option<u64>,
}

/// One connection's entry in the directory: who it is, the role it holds or
/// waits for, whether it waits, the stamp of its last write (which orders the
/// queue), and the time at which a waiting entry lapses, if it does. The
/// broker sets that time and never acts on it: whoever keeps the directory
/// removes the entries that have lapsed, and the broker hears of a removal
/// as of any other vacancy.
#[derive(Debug)]
pub struct Connection {
    pub id: String,
    pub role: Role,
    pub que: bool,
    pub sequence: u64,
    pub clear_at: Option<u64>,
}

impl View for Connection {
    type V = ConnectionView;

    open spec fn view(&self) -> ConnectionView {
        ConnectionView {
            id: self.id@,
            role: self.role,
            que: self.que,
            sequence: self.sequence,
            clear_at: self.clear_at,
        }
    }
}

impl Clone for Connection {
    fn clone(&self) -> (copy: Connection)
        ensures
            copy@ == self@,
    {
        Connection {
            id: self.id.clone(),
            role: self.role,
            que: self.que,
            sequence: self.sequence,
            clear_at: self.clear_at,
        }
    }
}

impl Connection {
    /// The record of a connection that has just arrived: an observer that
    /// waits for nothing.
    pub fn observer(id: String) -> (record: Connection)
        ensures
            record@ == (ConnectionView {
                id: id@,
                role: Role::Observer,
                que: false,
                sequence: 0,
                clear_at: None,
            }),
    {
        Connection { id, role: Role::Observer, que: false, sequence: 0, clear_at: None }
    }
}

/// A connection known by its id alone.
#[derive(Debug)]
pub struct UnresolvedConnection {
    pub id: String,
}

impl Clone for UnresolvedConnection {
    fn clone(&self) -> (copy: UnresolvedConnection)
        ensures
            copy.id@ == self.id@,
    {
        UnresolvedConnection { id: self.id.clone() }
    }
}

/// A client's request for a role, with the password that admin roles ask for.
#[derive(Debug)]
pub struct SelectionMessage {
    pub role: Role,
    pub password: Option<String>,
}

/// What an admin's relayed message says about its addressee: one connection,
/// or nobody in particular.
#[derive(Debug)]
pub struct AdminMessage {
    pub connection_id: Option<String>,
}

} // verus!
