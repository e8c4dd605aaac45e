//! What the broker sends after it has changed the directory, and to whom.

use crate::admission::Decision;
use crate::connection_operations::find_admin;
use crate::directory::{seen, Directory};
use crate::disconnect::{bound_admin, successor, vacates, Departure};
use crate::models::{Connection, ConnectionView, Role};
use crate::occupancy::tally;
use crate::records::lookup;
use crate::send::{
    accepted, accepted_notice, inform_server, outbox, queued, queued_notice, server_notice,
    Outbound, OutboundView, Status,
};
use vstd::prelude::*;

verus! {

/// The message to the admin to which a player role reports, about the
/// connection `id`; nothing where the role reports to no admin or the admin
/// is not there.
pub open spec fn admin_notices(admin: Option<ConnectionView>, id: Seq<char>, status: Status) -> Seq<
    OutboundView,
> {
    match admin {
        Some(a) => seq![server_notice(a.id, id, status)],
        None => Seq::empty(),
    }
}

/// What is sent when a connection has come to hold a role: the connection
/// hears that it was accepted, then the role's admin that it is connected.
pub open spec fn arrival_notices(records: Seq<ConnectionView>, id: Seq<char>, role: Role) -> Seq<
    OutboundView,
> {
    seq![accepted_notice(id, role)] + admin_notices(
        bound_admin(records, role),
        id,
        Status::Connected,
    )
}

/// What is sent after a request for a role, given the directory as the
/// request left it. A connection that was refused hears nothing.
pub open spec fn selection_notices(
    records: Seq<ConnectionView>,
    id: Seq<char>,
    role: Role,
    decision: Decision,
) -> Seq<OutboundView> {
    match decision {
        Decision::Accepted => arrival_notices(records, id, role),
        Decision::Queued(order) => seq![queued_notice(id, role, order as nat)],
        Decision::Rejected(_) => Seq::empty(),
    }
}

/// What is sent when somebody has moved up into a role.
pub open spec fn promotion_notices(
    records: Seq<ConnectionView>,
    role: Role,
    risen: Option<ConnectionView>,
) -> Seq<OutboundView> {
    match risen {
        Some(c) => arrival_notices(records, c.id, role),
        None => Seq::empty(),
    }
}

/// What is sent when a connection is gone, given the directory as it was
/// before. Only the loss of a holder of a player role is news: the role's
/// admin hears that the connection is disconnected, and then what a
/// promotion brings, if there is one.
pub open spec fn departure_notices(records: Seq<ConnectionView>, id: Seq<char>) -> Seq<
    OutboundView,
> {
    match lookup(records, id) {
        Some(c) => if vacates(c) {
            admin_notices(bound_admin(records, c.role), id, Status::Disconnected)
                + promotion_notices(records, c.role, successor(records, c.role))
        } else {
            Seq::empty()
        },
        None => Seq::empty(),
    }
}

/// What is sent when a vacancy has been looked into, given the directory as
/// it was before.
pub open spec fn refill_notices(records: Seq<ConnectionView>, role: Role) -> Seq<OutboundView> {
    if tally(records, role, false) == 0 {
        promotion_notices(records, role, successor(records, role))
    } else {
        Seq::empty()
    }
}

/// The messages for a connection that holds a role now, and for the admin
/// that was found for the role.
pub fn arrival(id: &str, role: Role, admin: &Option<Connection>) -> (notices: Vec<Outbound>)
    ensures
        outbox(notices@) == seq![accepted_notice(id@, role)] + admin_notices(
            seen(*admin),
            id@,
            Status::Connected,
        ),
{
    let mut notices: Vec<Outbound> = Vec::new();
    notices.push(accepted(String::from_str(id), role));
    match admin {
        Some(a) => {
            notices.push(inform_server(id, a.id.clone(), Status::Connected));
        },
        None => {},
    }
    proof {
        assert(outbox(notices@) =~= seq![accepted_notice(id@, role)] + admin_notices(
            seen(*admin),
            id@,
            Status::Connected,
        ));
    }
    notices
}

/// The admin to which a player role reports, if the role is a player role
/// and its admin is there.
pub fn admin_of(dir: &Directory, role: Role) -> (admin: Option<Connection>)
    ensures
        seen(admin) == bound_admin(dir@, role),
{
    match find_admin(dir, role) {
        Ok(a) => Some(a),
        Err(_) => None,
    }
}

/// The messages that a request for a role calls for.
pub fn after_selection(dir: &Directory, id: &str, role: Role, decision: Decision) -> (notices: Vec<
    Outbound,
>)
    ensures
        outbox(notices@) == selection_notices(dir@, id@, role, decision),
{
    match decision {
        Decision::Accepted => {
            let admin = admin_of(dir, role);
            arrival(id, role, &admin)
        },
        Decision::Queued(order) => {
            let mut notices: Vec<Outbound> = Vec::new();
            notices.push(queued(String::from_str(id), role, order));
            proof {
                assert(outbox(notices@) =~= seq![queued_notice(id@, role, order as nat)]);
            }
            notices
        },
        Decision::Rejected(_) => {
            let notices: Vec<Outbound> = Vec::new();
            proof {
                assert(outbox(notices@) =~= Seq::<OutboundView>::empty());
            }
            notices
        },
    }
}

/// The messages that a promotion calls for.
pub fn after_promotion(
    role: Role,
    admin: &Option<Connection>,
    risen: &Option<Connection>,
) -> (notices: Vec<Outbound>)
    ensures
        outbox(notices@) == match seen(*risen) {
            Some(c) => seq![accepted_notice(c.id, role)] + admin_notices(
                seen(*admin),
                c.id,
                Status::Connected,
            ),
            None => Seq::<OutboundView>::empty(),
        },
{
    match risen {
        Some(c) => arrival(c.id.as_str(), role, admin),
        None => {
            let notices: Vec<Outbound> = Vec::new();
            proof {
                assert(outbox(notices@) =~= Seq::<OutboundView>::empty());
            }
            notices
        },
    }
}

/// The messages that a disconnect calls for.
pub fn after_departure(gone: &Departure) -> (notices: Vec<Outbound>)
    ensures
        outbox(notices@) == match seen(gone.left) {
            Some(c) => admin_notices(seen(gone.admin), c.id, Status::Disconnected) + (match seen(
                gone.risen,
            ) {
                Some(r) => seq![accepted_notice(r.id, c.role)] + admin_notices(
                    seen(gone.admin),
                    r.id,
                    Status::Connected,
                ),
                None => Seq::<OutboundView>::empty(),
            }),
            None => Seq::<OutboundView>::empty(),
        },
{
    let mut notices: Vec<Outbound> = Vec::new();
    match &gone.left {
        Some(c) => {
            match &gone.admin {
                Some(a) => {
                    notices.push(inform_server(c.id.as_str(), a.id.clone(), Status::Disconnected));
                },
                None => {},
            }
            let ghost first = outbox(notices@);
            assert(first =~= admin_notices(seen(gone.admin), c@.id, Status::Disconnected));
            let mut more = after_promotion(c.role, &gone.admin, &gone.risen);
            let ghost second = outbox(more@);
            notices.append(&mut more);
            proof {
                assert(outbox(notices@) =~= first + second);
            }
        },
        None => {
            proof {
                assert(outbox(notices@) =~= Seq::<OutboundView>::empty());
            }
        },
    }
    notices
}

} // verus!
