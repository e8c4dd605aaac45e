//! The messages that the broker sends, and what it does when one cannot be
//! delivered.

use crate::broker::{settled_notices, settled_records, Broker};
use crate::directory::Directory;
use crate::error::BrokerError;
use crate::events::RequestContext;
use crate::json::{decimal, in_quotes, json_string, number, plain, quote};
use crate::models::{ConnectionView, Role};
use crate::records::lookup;
use vstd::prelude::*;
use vstd::string::StringExecFns;

verus! {

/// What an admin is told about a connection of the player role it speaks to.
#[derive(Clone, Copy, Debug, PartialEq, Eq, Structural)]
pub enum Status {
    Connected,
    Disconnected,
}

impl Status {
    pub open spec fn name(self) -> Seq<char> {
        match self {
            Status::Connected => "CONNECTED"@,
            Status::Disconnected => "DISCONNECTED"@,
        }
    }

    pub fn as_str(self) -> (text: &'static str)
        ensures
            text@ == self.name(),
    {
        match self {
            Status::Connected => "CONNECTED",
            Status::Disconnected => "DISCONNECTED",
        }
    }
}

/// What the transport said of one attempt to deliver.
#[derive(Clone, Copy, Debug, PartialEq, Eq, Structural)]
pub enum Delivery {
    Delivered,
    /// The connection is no more.
    Gone,
    /// The attempt failed; a later one may succeed.
    TransientError,
}

/// A message to deliver as it reads in contracts.
pub struct OutboundView {
    pub to: Seq<char>,
    pub message: Seq<char>,
}

/// A message for the transport to deliver: the connection to reach and the
/// text to send.
#[derive(Debug)]
pub struct Outbound {
    pub to: String,
    pub message: String,
}

impl View for Outbound {
    type V = OutboundView;

    open spec fn view(&self) -> OutboundView {
        OutboundView { to: self.to@, message: self.message@ }
    }
}

pub open spec fn outbox(messages: Seq<Outbound>) -> Seq<OutboundView> {
    messages.map_values(|m: Outbound| m@)
}

/// The text that tells a connection that it holds a role.
pub open spec fn accepted_text(role: Role) -> Seq<char> {
    "{\"role\":"@ + in_quotes(role.name()) + ",\"status\":"@ + in_quotes("accepted"@) + "}"@
}

/// The text that tells a connection that it waits for a role, behind `order`
/// others.
pub open spec fn queued_text(role: Role, order: nat) -> Seq<char> {
    "{\"order\":"@ + decimal(order) + ",\"role\":"@ + in_quotes(role.name()) + ",\"status\":"@
        + in_quotes("que"@) + "}"@
}

/// The text that tells an admin that a connection has come or gone.
pub open spec fn server_text(id: Seq<char>, status: Status) -> Seq<char> {
    "{\"connection\":"@ + json_string(id) + ",\"status\":"@ + in_quotes(status.name()) + "}"@
}

/// The text that shows a connection its own record.
pub open spec fn record_text(c: ConnectionView) -> Seq<char> {
    "{\"id\":"@ + json_string(c.id) + ",\"role\":"@ + in_quotes(c.role.name()) + ",\"que\":"@ + (
    if c.que {
        "true"@
    } else {
        "false"@
    }) + "}"@
}

/// The message that tells `to` that it holds the role.
pub open spec fn accepted_notice(to: Seq<char>, role: Role) -> OutboundView {
    OutboundView { to, message: accepted_text(role) }
}

/// The message that tells `to` that it waits for the role.
pub open spec fn queued_notice(to: Seq<char>, role: Role, order: nat) -> OutboundView {
    OutboundView { to, message: queued_text(role, order) }
}

/// The message that tells the admin `to` what became of the connection `id`.
pub open spec fn server_notice(to: Seq<char>, id: Seq<char>, status: Status) -> OutboundView {
    OutboundView { to, message: server_text(id, status) }
}

proof fn lemma_plain_words()
    ensures
        forall|role: Role| plain(#[trigger] role.name()),
        forall|status: Status| plain(#[trigger] status.name()),
        plain("accepted"@),
        plain("que"@),
{
    reveal_strlit("Observer");
    reveal_strlit("PlayerPong");
    reveal_strlit("PlayerDisplay");
    reveal_strlit("AdminPong");
    reveal_strlit("AdminDisplay");
    reveal_strlit("CONNECTED");
    reveal_strlit("DISCONNECTED");
    reveal_strlit("accepted");
    reveal_strlit("que");
    assert(plain("Observer"@));
    assert(plain("PlayerPong"@));
    assert(plain("PlayerDisplay"@));
    assert(plain("AdminPong"@));
    assert(plain("AdminDisplay"@));
    assert(plain("CONNECTED"@));
    assert(plain("DISCONNECTED"@));
}

/// The message that tells a connection that it holds a role.
pub fn accepted(to: String, role: Role) -> (notice: Outbound)
    ensures
        notice@ == accepted_notice(to@, role),
{
    proof {
        lemma_plain_words();
    }
    let mut text = String::from_str("{\"role\":");
    text.append(quote(role.as_str()).as_str());
    text.append(",\"status\":");
    text.append(quote("accepted").as_str());
    text.append("}");
    Outbound { to, message: text }
}

/// The message that tells a connection that it waits for a role.
pub fn queued(to: String, role: Role, order: usize) -> (notice: Outbound)
    ensures
        notice@ == queued_notice(to@, role, order as nat),
{
    proof {
        lemma_plain_words();
    }
    let mut text = String::from_str("{\"order\":");
    text.append(number(order as u64).as_str());
    text.append(",\"role\":");
    text.append(quote(role.as_str()).as_str());
    text.append(",\"status\":");
    text.append(quote("que").as_str());
    text.append("}");
    Outbound { to, message: text }
}

/// Tells the connection that sent the request that it holds the role. Where
/// the request does not say who sent it, there is nobody to tell.
pub fn role_accepted(request_context: &RequestContext, role: Role) -> (notice: Option<Outbound>)
    ensures
        match notice {
            Some(m) => {
                &&& request_context.connection_id matches Some(id)
                &&& m@ == accepted_notice(id@, role)
            },
            None => request_context.connection_id.is_none(),
        },
{
    match &request_context.connection_id {
        Some(id) => Some(accepted(id.clone(), role)),
        None => None,
    }
}

/// Tells the connection that sent the request that it waits for the role.
/// Where the request does not say who sent it, there is nobody to tell.
pub fn put_in_que(request_context: &RequestContext, role: Role, order: usize) -> (notice: Option<
    Outbound,
>)
    ensures
        match notice {
            Some(m) => {
                &&& request_context.connection_id matches Some(id)
                &&& m@ == queued_notice(id@, role, order as nat)
            },
            None => request_context.connection_id.is_none(),
        },
{
    match &request_context.connection_id {
        Some(id) => Some(queued(id.clone(), role, order)),
        None => None,
    }
}

/// Tells an admin that a connection has come or gone. The connection's id
/// stands in the message as a JSON string literal, which is the id between
/// double quotes unless the id holds a character that JSON escapes.
pub fn inform_server(id: &str, admin_id: String, status: Status) -> (notice: Outbound)
    ensures
        notice@ == server_notice(admin_id@, id@, status),
        plain(id@) ==> notice@.message == "{\"connection\":"@ + in_quotes(id@) + ",\"status\":"@
            + in_quotes(status.name()) + "}"@,
{
    proof {
        lemma_plain_words();
    }
    let mut text = String::from_str("{\"connection\":");
    text.append(quote(id).as_str());
    text.append(",\"status\":");
    text.append(quote(status.as_str()).as_str());
    text.append("}");
    Outbound { to: admin_id, message: text }
}

/// Answers a connection with its own record. Fails where the request does
/// not say who sent it, and where the directory does not know the sender.
pub fn pong(dir: &Directory, request_context: &RequestContext) -> (answer: Result<
    Outbound,
    BrokerError,
>)
    requires
        dir.wf(),
    ensures
        match answer {
            Ok(m) => {
                &&& request_context.connection_id matches Some(id)
                &&& lookup(dir@, id@) matches Some(c)
                &&& m@ == (OutboundView { to: id@, message: record_text(c) })
                &&& plain(id@) ==> m@.message == "{\"id\":"@ + in_quotes(id@) + ",\"role\":"@
                    + in_quotes(c.role.name()) + ",\"que\":"@ + (if c.que {
                    "true"@
                } else {
                    "false"@
                }) + "}"@
            },
            Err(e) => match request_context.connection_id {
                Some(id) => e == BrokerError::NotFound && lookup(dir@, id@).is_none(),
                None => e == BrokerError::MissingConnectionId,
            },
        },
{
    let id = match &request_context.connection_id {
        Some(id) => id,
        None => {
            return Err(BrokerError::MissingConnectionId);
        },
    };
    let record = match dir.get(id.as_str()) {
        Some(c) => c,
        None => {
            return Err(BrokerError::NotFound);
        },
    };
    proof {
        lemma_plain_words();
    }
    let mut text = String::from_str("{\"id\":");
    text.append(quote(record.id.as_str()).as_str());
    text.append(",\"role\":");
    text.append(quote(record.role.as_str()).as_str());
    text.append(",\"que\":");
    if record.que {
        text.append("true");
    } else {
        text.append("false");
    }
    text.append("}");
    Ok(Outbound { to: id.clone(), message: text })
}

/// The address at which the gateway takes messages for the connections of
/// the request's host and stage. A part that the request leaves out is empty.
pub open spec fn endpoint_text(request_context: &RequestContext) -> Seq<char> {
    "https://"@ + (match request_context.domain_name {
        Some(host) => host@,
        None => Seq::empty(),
    }) + "/"@ + (match request_context.stage {
        Some(stage) => stage@,
        None => Seq::empty(),
    })
}

pub fn endpoint(request_context: &RequestContext) -> (address: String)
    ensures
        address@ == endpoint_text(request_context),
{
    let mut address = String::from_str("https://");
    match &request_context.domain_name {
        Some(host) => {
            address.append(host.as_str());
        },
        None => {
            assert(address@ + Seq::<char>::empty() =~= address@);
        },
    }
    address.append("/");
    match &request_context.stage {
        Some(stage) => {
            address.append(stage.as_str());
        },
        None => {
            assert(address@ + Seq::<char>::empty() =~= address@);
        },
    }
    address
}

/// Settles one attempt to deliver a message to a connection, given what the
/// transport said of it. A connection that the transport reports gone is
/// handled as one that disconnected, and what that calls for is handed out
/// to be sent in turn: a second report of the same loss then finds nothing
/// to do. A delivery that went through changes nothing. One that failed for
/// the moment changes nothing either and is an error to try again on.
pub fn send(broker: &mut Broker, connection_id: &str, delivery: Delivery) -> (settled: Result<
    Vec<Outbound>,
    BrokerError,
>)
    requires
        old(broker).wf(),
    ensures
        final(broker).wf(),
        final(broker).settings() == old(broker).settings(),
        final(broker).next() == old(broker).next(),
        final(broker)@ == settled_records(old(broker)@, connection_id@, delivery),
        match settled {
            Ok(notices) => {
                &&& delivery != Delivery::TransientError
                &&& outbox(notices@) == settled_notices(old(broker)@, connection_id@, delivery)
            },
            Err(e) => {
                &&& delivery == Delivery::TransientError
                &&& e == BrokerError::TransportUnavailable
            },
        },
{
    broker.handle_delivery(connection_id, delivery)
}

} // verus!
