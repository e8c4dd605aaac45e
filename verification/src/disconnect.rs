//! The disconnect handler: what is left to do when a connection is gone.

use crate::config::Config;
use crate::connection_operations::{delete_player, find_admin};
use crate::directory::{seen, Directory};
use crate::models::{Connection, ConnectionView, Role};
use crate::occupancy::{consistent, lemma_deadlines_without, lemma_tally_without, within_capacity};
use crate::queue::{
    lemma_deadlines_promoted, lemma_keeps_holder, lemma_tally_promoted, promote_next, promoted,
};
use crate::records::{active, front, holders, lookup, without};
use vstd::prelude::*;

verus! {

/// A connection that leaves a slot of a player role behind when it goes.
pub open spec fn vacates(c: ConnectionView) -> bool {
    !c.que && c.role.is_player()
}

/// The records after a connection is gone. Where it held a slot of a player
/// role, the front of that role's queue has moved up. A connection that only
/// waited, or held no player role, is taken out and nothing else changes; one
/// that is not known changes nothing.
pub open spec fn departed(records: Seq<ConnectionView>, id: Seq<char>) -> Seq<ConnectionView> {
    match lookup(records, id) {
        Some(c) => if vacates(c) {
            without(promoted(records, c.role), id)
        } else {
            without(records, id)
        },
        None => records,
    }
}

/// The connection that holds the admin role to which a player role reports,
/// if the role is a player role and its admin is there.
pub open spec fn bound_admin(records: Seq<ConnectionView>, role: Role) -> Option<ConnectionView> {
    match role.paired_admin() {
        Some(admin) => if holders(records, admin).len() > 0 {
            Some(holders(records, admin)[0])
        } else {
            None
        },
        None => None,
    }
}

/// The connection that moves up when a slot of the role falls free.
pub open spec fn successor(records: Seq<ConnectionView>, role: Role) -> Option<ConnectionView> {
    match front(records, role) {
        Some(f) => Some(active(f)),
        None => None,
    }
}

/// What a disconnect did: the record that was removed, and, where that record
/// held a slot of a player role, the admin to tell and the connection that
/// moved up.
#[derive(Debug)]
pub struct Departure {
    pub left: Option<Connection>,
    pub admin: Option<Connection>,
    pub risen: Option<Connection>,
}

/// The disconnect handler, for a connection that closed and for one that the
/// transport reports gone alike. An unknown connection changes nothing, so a
/// second report of the same loss is harmless.
pub fn on_disconnect(dir: &mut Directory, config: &Config, id: &str) -> (gone: Departure)
    requires
        old(dir).wf(),
        consistent(old(dir)@, config),
    ensures
        final(dir).wf(),
        consistent(final(dir)@, config),
        final(dir).next() == old(dir).next(),
        final(dir)@ == departed(old(dir)@, id@),
        seen(gone.left) == lookup(old(dir)@, id@),
        match lookup(old(dir)@, id@) {
            Some(c) => if vacates(c) {
                &&& seen(gone.admin) == bound_admin(old(dir)@, c.role)
                &&& seen(gone.risen) == successor(old(dir)@, c.role)
            } else {
                gone.admin.is_none() && gone.risen.is_none()
            },
            None => gone.admin.is_none() && gone.risen.is_none(),
        },
{
    let ghost before = dir@;
    let current = match dir.get(id) {
        Some(c) => c,
        None => {
            return Departure { left: None, admin: None, risen: None };
        },
    };
    let mut admin: Option<Connection> = None;
    let mut risen: Option<Connection> = None;
    if !current.que && current.role.player() {
        admin =
        match find_admin(dir, current.role) {
            Ok(a) => Some(a),
            Err(_) => None,
        };
        risen = promote_next(dir, current.role);
        proof {
            lemma_keeps_holder(before, current.role, current@);
            lemma_deadlines_promoted(before, config, current.role);
        }
    }
    let ghost middle = dir@;
    delete_player(dir, String::from_str(id));
    proof {
        assert forall|r: Role| within_capacity(dir@, config, r) by {
            assert(within_capacity(before, config, r));
            lemma_tally_without(middle, id@, r, false);
            if vacates(current@) {
                lemma_tally_promoted(before, current@.role, r);
            }
        }
        lemma_deadlines_without(middle, config, id@);
    }
    Departure { left: Some(current), admin, risen }
}

} // verus!
