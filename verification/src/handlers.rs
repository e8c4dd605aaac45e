//! The entry points: one for each kind of event that the broker is sent.

use crate::admission::{admission, Decision};
use crate::broker::{newcomer, Broker, Selection};
use crate::directory::texts;
use crate::disconnect::departed;
use crate::error::BrokerError;
use crate::events::{removal, vacated, vacated_roles, Event, RequestContext, StreamRecord};
use crate::models::{AdminMessage, ConnectionView, Role, SelectionMessage};
use crate::notices::{departure_notices, refill_notices, selection_notices};
use crate::records::{lookup, without};
use crate::responses::HttpResponse;
use crate::router::targets;
use crate::send::{outbox, pong, record_text, Outbound, OutboundView};
use crate::sweeper::refilled;
use vstd::prelude::*;

verus! {

pub open spec fn said(text: Option<String>) -> Option<Seq<char>> {
    match text {
        Some(t) => Some(t@),
        None => None,
    }
}

/// The directory after a run of vacancies has been looked into, one role
/// after the other.
pub open spec fn swept(records: Seq<ConnectionView>, roles: Seq<Role>) -> Seq<ConnectionView>
    decreases roles.len(),
{
    if roles.len() == 0 {
        records
    } else {
        refilled(swept(records, roles.drop_last()), roles.last())
    }
}

/// What is sent while a run of vacancies is looked into.
pub open spec fn sweep_notices(records: Seq<ConnectionView>, roles: Seq<Role>) -> Seq<OutboundView>
    decreases roles.len(),
{
    if roles.len() == 0 {
        Seq::empty()
    } else {
        sweep_notices(records, roles.drop_last()) + refill_notices(
            swept(records, roles.drop_last()),
            roles.last(),
        )
    }
}

/// A connection has opened or closed. `CONNECT` records the connection as an
/// observer, `DISCONNECT` handles its loss, and an event of another kind is
/// passed over. Fails where the event does not say what it is, or whose.
pub fn connection(broker: &mut Broker, request_context: &RequestContext) -> (outcome: Result<
    Vec<Outbound>,
    BrokerError,
>)
    requires
        old(broker).wf(),
    ensures
        final(broker).wf(),
        final(broker).settings() == old(broker).settings(),
        match (said(request_context.event_type), said(request_context.connection_id)) {
            (None, _) => {
                &&& outcome == Err::<Vec<Outbound>, BrokerError>(BrokerError::MissingEventType)
                &&& final(broker)@ == old(broker)@
                &&& final(broker).next() == old(broker).next()
            },
            (Some(kind), None) => if kind == "CONNECT"@ || kind == "DISCONNECT"@ {
                &&& outcome == Err::<Vec<Outbound>, BrokerError>(
                    BrokerError::MissingConnectionId,
                )
                &&& final(broker)@ == old(broker)@
                &&& final(broker).next() == old(broker).next()
            } else {
                &&& outcome matches Ok(notices)
                &&& notices@.len() == 0
                &&& final(broker)@ == old(broker)@
                &&& final(broker).next() == old(broker).next()
            },
            (Some(kind), Some(id)) => if kind == "CONNECT"@ {
                if old(broker).next() == u64::MAX {
                    &&& outcome == Err::<Vec<Outbound>, BrokerError>(
                        BrokerError::StorageUnavailable,
                    )
                    &&& final(broker)@ == old(broker)@
                    &&& final(broker).next() == old(broker).next()
                } else {
                    &&& outcome matches Ok(notices)
                    &&& notices@.len() == 0
                    &&& final(broker)@ == without(old(broker)@, id).push(
                        newcomer(id, old(broker).next()),
                    )
                    &&& final(broker).next() == old(broker).next() + 1
                }
            } else if kind == "DISCONNECT"@ {
                &&& outcome matches Ok(notices)
                &&& outbox(notices@) == departure_notices(old(broker)@, id)
                &&& final(broker)@ == departed(old(broker)@, id)
                &&& final(broker).next() == old(broker).next()
            } else {
                &&& outcome matches Ok(notices)
                &&& notices@.len() == 0
                &&& final(broker)@ == old(broker)@
                &&& final(broker).next() == old(broker).next()
            },
        },
{
    let kind = match &request_context.event_type {
        Some(kind) => kind,
        None => {
            return Err(BrokerError::MissingEventType);
        },
    };
    if kind.as_str().eq("CONNECT") {
        match &request_context.connection_id {
            Some(id) => match broker.handle_connect(id.as_str()) {
                Ok(_) => Ok(Vec::new()),
                Err(e) => Err(e),
            },
            None => Err(BrokerError::MissingConnectionId),
        }
    } else if kind.as_str().eq("DISCONNECT") {
        match &request_context.connection_id {
            Some(id) => Ok(broker.handle_disconnect(id.as_str())),
            None => Err(BrokerError::MissingConnectionId),
        }
    } else {
        Ok(Vec::new())
    }
}

/// A client has chosen a role. The connection that the request names asks
/// for the role of the message, with the password of the message. Fails
/// where the request does not say who sent it.
pub fn save_role(
    broker: &mut Broker,
    message: &SelectionMessage,
    request_context: &RequestContext,
    now: u64,
) -> (outcome: Result<Selection, BrokerError>)
    requires
        old(broker).wf(),
        old(broker).settings().grace(message.role) matches Some(grace) ==> now + grace
            <= u64::MAX,
    ensures
        final(broker).wf(),
        final(broker).settings() == old(broker).settings(),
        match said(request_context.connection_id) {
            None => {
                &&& outcome matches Err(e)
                &&& e == BrokerError::MissingConnectionId
                &&& final(broker)@ == old(broker)@
                &&& final(broker).next() == old(broker).next()
            },
            Some(id) => {
                let expected = admission(
                    old(broker)@,
                    old(broker).next(),
                    old(broker).settings(),
                    id,
                    message.role,
                    said(message.password),
                    now,
                );
                &&& final(broker)@ == expected.records
                &&& final(broker).next() == expected.next
                &&& match outcome {
                    Ok(selection) => {
                        &&& expected.result == Ok::<Decision, BrokerError>(selection.decision)
                        &&& outbox(selection.outbox@) == selection_notices(
                            expected.records,
                            id,
                            message.role,
                            selection.decision,
                        )
                    },
                    Err(e) => expected.result == Err::<Decision, BrokerError>(e),
                }
            },
        },
{
    let id = match &request_context.connection_id {
        Some(id) => id,
        None => {
            return Err(BrokerError::MissingConnectionId);
        },
    };
    match &message.password {
        Some(password) => broker.handle_role_selection(
            id.as_str(),
            message.role,
            Some(password.as_str()),
            now,
        ),
        None => broker.handle_role_selection(id.as_str(), message.role, None, now),
    }
}

/// A slot of the role may have fallen free: the next connection in the
/// role's queue moves up if nobody holds the role.
pub fn next_connection(broker: &mut Broker, role: Role) -> (notices: Vec<Outbound>)
    requires
        old(broker).wf(),
    ensures
        final(broker).wf(),
        final(broker).settings() == old(broker).settings(),
        final(broker).next() == old(broker).next(),
        final(broker)@ == refilled(old(broker)@, role),
        outbox(notices@) == refill_notices(old(broker)@, role),
{
    broker.handle_slot_vacated(role)
}

/// The directory's change feed reports changes. For every entry that was
/// removed, in the order of the reports, the vacancy in the entry's role is
/// looked into. Every report of a removal must name the role that the entry
/// had.
pub fn timeout(broker: &mut Broker, records: &Vec<StreamRecord>) -> (notices: Vec<Outbound>)
    requires
        old(broker).wf(),
        forall|i: int|
            0 <= i < records.len() && removal(#[trigger] &records[i])
                ==> records[i].old_role.is_some(),
    ensures
        final(broker).wf(),
        final(broker).settings() == old(broker).settings(),
        final(broker).next() == old(broker).next(),
        final(broker)@ == swept(old(broker)@, vacated(records@)),
        outbox(notices@) == sweep_notices(old(broker)@, vacated(records@)),
{
    let roles = vacated_roles(records);
    let mut notices: Vec<Outbound> = Vec::new();
    let mut i: usize = 0;
    proof {
        assert(roles@.subrange(0, 0) =~= Seq::<Role>::empty());
        assert(outbox(notices@) =~= Seq::<OutboundView>::empty());
    }
    while i < roles.len()
        invariant
            i <= roles.len(),
            broker.wf(),
            broker.settings() == old(broker).settings(),
            broker.next() == old(broker).next(),
            broker@ == swept(old(broker)@, roles@.subrange(0, i as int)),
            outbox(notices@) == sweep_notices(old(broker)@, roles@.subrange(0, i as int)),
        decreases roles.len() - i,
    {
        proof {
            let upto = roles@.subrange(0, i + 1);
            assert(upto.drop_last() =~= roles@.subrange(0, i as int));
            assert(upto.last() == roles@[i as int]);
        }
        let ghost sent = outbox(notices@);
        let mut more = next_connection(broker, roles[i]);
        let ghost fresh = outbox(more@);
        notices.append(&mut more);
        proof {
            assert(outbox(notices@) =~= sent + fresh);
        }
        i += 1;
    }
    proof {
        assert(roles@.subrange(0, i as int) =~= roles@);
    }
    notices
}

/// An admin relays a message to the players of its role: to the one that
/// the message names, or to all of them.
pub fn downstream(
    broker: &Broker,
    request_context: &RequestContext,
    message: &AdminMessage,
) -> (found: Result<Vec<String>, BrokerError>)
    requires
        broker.wf(),
    ensures
        match said(request_context.connection_id) {
            None => found matches Err(e) && e == BrokerError::MissingConnectionId,
            Some(id) => match found {
                Ok(reached) => {
                    &&& lookup(broker@, id) matches Some(sender)
                    &&& texts(reached@) == targets(broker@, sender, said(message.connection_id))
                },
                Err(e) => e == BrokerError::NotFound && lookup(broker@, id).is_none(),
            },
        },
{
    match &request_context.connection_id {
        Some(id) => broker.handle_client_message(id.as_str(), message),
        None => Err(BrokerError::MissingConnectionId),
    }
}

/// A client's message goes up to the admin of its role. It names nobody: who
/// gets it follows from the sender's role alone.
pub fn upstream(broker: &Broker, request_context: &RequestContext) -> (found: Result<
    Vec<String>,
    BrokerError,
>)
    requires
        broker.wf(),
    ensures
        match said(request_context.connection_id) {
            None => found matches Err(e) && e == BrokerError::MissingConnectionId,
            Some(id) => match found {
                Ok(reached) => {
                    &&& lookup(broker@, id) matches Some(sender)
                    &&& texts(reached@) == targets(broker@, sender, None)
                },
                Err(e) => e == BrokerError::NotFound && lookup(broker@, id).is_none(),
            },
        },
{
    let nobody = AdminMessage { connection_id: None };
    downstream(broker, request_context, &nobody)
}

/// Whether an event's handling went through, and what is sent after it.
pub struct Handled {
    pub response: HttpResponse,
    pub outbox: Vec<Outbound>,
}

/// One event of any kind. `CONNECT` and `DISCONNECT` are handled as
/// `connection` handles them; every other event is answered with the
/// sender's own record. The response is 200 where that went through and 500
/// where it failed; a failure has changed nothing and sends nothing.
pub fn handler(broker: &mut Broker, event: &Event) -> (handled: Handled)
    requires
        old(broker).wf(),
    ensures
        final(broker).wf(),
        final(broker).settings() == old(broker).settings(),
        match (said(event.request_context.event_type), said(event.request_context.connection_id)) {
            (Some(kind), Some(id)) => if kind == "CONNECT"@ {
                if old(broker).next() == u64::MAX {
                    &&& handled.response.status_code == 500
                    &&& handled.outbox@.len() == 0
                    &&& final(broker)@ == old(broker)@
                    &&& final(broker).next() == old(broker).next()
                } else {
                    &&& handled.response.status_code == 200
                    &&& handled.outbox@.len() == 0
                    &&& final(broker)@ == without(old(broker)@, id).push(
                        newcomer(id, old(broker).next()),
                    )
                    &&& final(broker).next() == old(broker).next() + 1
                }
            } else if kind == "DISCONNECT"@ {
                &&& handled.response.status_code == 200
                &&& outbox(handled.outbox@) == departure_notices(old(broker)@, id)
                &&& final(broker)@ == departed(old(broker)@, id)
                &&& final(broker).next() == old(broker).next()
            } else {
                &&& final(broker)@ == old(broker)@
                &&& final(broker).next() == old(broker).next()
                &&& match lookup(old(broker)@, id) {
                    Some(c) => {
                        &&& handled.response.status_code == 200
                        &&& outbox(handled.outbox@) == seq![
                            (OutboundView { to: id, message: record_text(c) }),
                        ]
                    },
                    None => handled.response.status_code == 500 && handled.outbox@.len() == 0,
                }
            },
            _ => {
                &&& handled.response.status_code == 500
                &&& handled.outbox@.len() == 0
                &&& final(broker)@ == old(broker)@
                &&& final(broker).next() == old(broker).next()
            },
        },
{
    let context = &event.request_context;
    let outcome = match (&context.event_type, &context.connection_id) {
        (Some(kind), Some(_)) => {
            if kind.as_str().eq("CONNECT") || kind.as_str().eq("DISCONNECT") {
                connection(broker, context)
            } else {
                match pong(broker.directory(), context) {
                    Ok(answer) => {
                        let mut answers: Vec<Outbound> = Vec::new();
                        answers.push(answer);
                        proof {
                            assert(outbox(answers@) =~= seq![answer@]);
                        }
                        Ok(answers)
                    },
                    Err(e) => Err(e),
                }
            }
        },
        (None, _) => Err(BrokerError::MissingEventType),
        (_, None) => Err(BrokerError::MissingConnectionId),
    };
    match outcome {
        Ok(outbox) => Handled { response: HttpResponse::of(true), outbox },
        Err(_) => Handled { response: HttpResponse::of(false), outbox: Vec::new() },
    }
}

} // verus!
