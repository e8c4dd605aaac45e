//! The operations on the connection directory that the broker is built from.

use crate::directory::{views, Directory};
use crate::error::BrokerError;
use crate::models::{Connection, ConnectionView, Role, UnresolvedConnection};
use crate::occupancy::tally;
use crate::records::{
    activated, front, holders, lemma_activated, lookup, revised, stamped, without,
};
use vstd::prelude::*;

verus! {

/// The full record of a connection that is known by its id.
pub fn find_connection_in_db(dir: &Directory, connection: UnresolvedConnection) -> (found: Result<
    Connection,
    BrokerError,
>)
    requires
        dir.wf(),
    ensures
        match found {
            Ok(c) => lookup(dir@, connection.id@) == Some(c@),
            Err(e) => e == BrokerError::NotFound && lookup(dir@, connection.id@).is_none(),
        },
{
    match dir.get(connection.id.as_str()) {
        Some(c) => Ok(c),
        None => Err(BrokerError::NotFound),
    }
}

/// The connection that holds the admin role to which a player role reports.
/// Where several hold it, the one that has held it longest.
pub fn find_admin(dir: &Directory, role: Role) -> (found: Result<Connection, BrokerError>)
    ensures
        match found {
            Ok(c) => {
                &&& role.paired_admin() matches Some(admin)
                &&& holders(dir@, admin).len() > 0
                &&& holders(dir@, admin)[0] == c@
            },
            Err(e) => match role.paired_admin() {
                Some(admin) => e == BrokerError::NotFound && holders(dir@, admin).len() == 0,
                None => e == BrokerError::UnknownPlayer,
            },
        },
{
    match role.admin_for() {
        Some(admin) => match dir.first_holder(admin) {
            Some(c) => Ok(c),
            None => Err(BrokerError::NotFound),
        },
        None => Err(BrokerError::UnknownPlayer),
    }
}

/// The connections that hold the player role to which an admin role speaks,
/// in the order of their stamps.
pub fn find_players(dir: &Directory, role: Role) -> (found: Result<Vec<Connection>, BrokerError>)
    ensures
        match found {
            Ok(players) => {
                &&& role.paired_player() matches Some(player)
                &&& views(players@) == holders(dir@, player)
            },
            Err(e) => e == BrokerError::UnknownPlayer && role.paired_player().is_none(),
        },
{
    match role.player_for() {
        Some(player) => Ok(dir.query_by_role(player, false)),
        None => Err(BrokerError::UnknownPlayer),
    }
}

/// The connection that has waited longest for a role.
pub fn find_next_in_que(dir: &Directory, role: Role) -> (found: Result<Connection, BrokerError>)
    requires
        dir.wf(),
    ensures
        match found {
            Ok(c) => front(dir@, role) == Some(c@),
            Err(e) => e == BrokerError::NotFound && front(dir@, role).is_none(),
        },
{
    match dir.first_waiting(role) {
        Some(c) => Ok(c),
        None => Err(BrokerError::NotFound),
    }
}

/// Promotes a connection if it still waits: it then holds the role it waited
/// for, and its deadline is gone. Says whether it did; if not, nothing has
/// changed.
pub fn mark_player_active(dir: &mut Directory, id: String) -> (promoted: bool)
    requires
        old(dir).wf(),
    ensures
        final(dir).wf(),
        final(dir).next() == old(dir).next(),
        final(dir)@ == activated(old(dir)@, id@),
        promoted == (lookup(old(dir)@, id@) matches Some(c) && c.que),
        !promoted ==> final(dir)@ == old(dir)@,
{
    match dir.get(id.as_str()) {
        Some(c) => {
            proof {
                lemma_activated(dir@, id@);
            }
            dir.conditional_update(id.as_str(), c.role, true, false, None).is_some()
        },
        None => {
            proof {
                assert(dir@ =~= activated(dir@, id@));
            }
            false
        },
    }
}

/// Whether any connection holds the role.
pub fn has_player(dir: &Directory, role: Role) -> (any: bool)
    ensures
        any == (tally(dir@, role, false) > 0),
{
    dir.count(role, false) > 0
}

/// Removes a connection's record, if it has one.
pub fn delete_player(dir: &mut Directory, id: String)
    requires
        old(dir).wf(),
    ensures
        final(dir).wf(),
        final(dir).next() == old(dir).next(),
        final(dir)@ == without(old(dir)@, id@),
{
    let _ = dir.delete_by_id(id.as_str());
}

/// Records a connection that has just arrived, as an observer.
pub fn save_player(dir: &mut Directory, id: String) -> (saved: Result<Connection, BrokerError>)
    requires
        old(dir).wf(),
    ensures
        final(dir).wf(),
        match saved {
            Ok(c) => {
                &&& old(dir).next() < u64::MAX
                &&& final(dir).next() == old(dir).next() + 1
                &&& c@ == (ConnectionView {
                    id: id@,
                    role: Role::Observer,
                    que: false,
                    sequence: old(dir).next(),
                    clear_at: None,
                })
                &&& final(dir)@ == without(old(dir)@, id@).push(c@)
            },
            Err(e) => {
                &&& e == BrokerError::StorageUnavailable
                &&& old(dir).next() == u64::MAX
                &&& final(dir)@ == old(dir)@
                &&& final(dir).next() == old(dir).next()
            },
        },
{
    dir.put(Connection::observer(id))
}

/// Puts a connection at the end of a role's queue.
pub fn put_into_que(dir: &mut Directory, id: String, role: Role) -> (saved: Result<
    Connection,
    BrokerError,
>)
    requires
        old(dir).wf(),
    ensures
        final(dir).wf(),
        match saved {
            Ok(c) => {
                &&& old(dir).next() < u64::MAX
                &&& final(dir).next() == old(dir).next() + 1
                &&& c@ == (ConnectionView {
                    id: id@,
                    role,
                    que: true,
                    sequence: old(dir).next(),
                    clear_at: None,
                })
                &&& final(dir)@ == without(old(dir)@, id@).push(c@)
            },
            Err(e) => {
                &&& e == BrokerError::StorageUnavailable
                &&& old(dir).next() == u64::MAX
                &&& final(dir)@ == old(dir)@
                &&& final(dir).next() == old(dir).next()
            },
        },
{
    dir.put(Connection { id, role, que: true, sequence: 0, clear_at: None })
}

/// How many connections hold the role.
pub fn get_player_count_by_role(dir: &Directory, role: Role) -> (n: usize)
    ensures
        n == tally(dir@, role, false),
{
    dir.count(role, false)
}

/// Writes a record as it is given, but for its stamp, in place of the one
/// with the same id if there is one.
pub fn save_connection(dir: &mut Directory, connection: Connection) -> (saved: Result<
    Connection,
    BrokerError,
>)
    requires
        old(dir).wf(),
    ensures
        final(dir).wf(),
        match saved {
            Ok(c) => {
                &&& old(dir).next() < u64::MAX
                &&& final(dir).next() == old(dir).next() + 1
                &&& c@ == stamped(connection@, old(dir).next())
                &&& final(dir)@ == without(old(dir)@, connection@.id).push(c@)
            },
            Err(e) => {
                &&& e == BrokerError::StorageUnavailable
                &&& old(dir).next() == u64::MAX
                &&& final(dir)@ == old(dir)@
                &&& final(dir).next() == old(dir).next()
            },
        },
{
    dir.put(connection)
}

/// Gives a queue entry its deadline, `grace` seconds from `now`, provided the
/// connection still waits for the role. Says whether it did; if not, nothing
/// has changed.
pub fn time_out_first_in_que(
    dir: &mut Directory,
    id: &str,
    role: Role,
    now: u64,
    grace: u64,
) -> (set: bool)
    requires
        old(dir).wf(),
        now + grace <= u64::MAX,
    ensures
        final(dir).wf(),
        final(dir).next() == old(dir).next(),
        final(dir)@ == revised(old(dir)@, id@, role, true, true, Some((now + grace) as u64)),
        set == (lookup(old(dir)@, id@) matches Some(c) && c.role == role && c.que),
        !set ==> final(dir)@ == old(dir)@,
{
    dir.conditional_update(id, role, true, true, Some(now + grace)).is_some()
}

} // verus!
