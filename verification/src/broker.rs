//! The broker itself: the directory and the settings behind one interface
//! that keeps the rules whatever it is asked.

use crate::admission::{admission, request_role, Decision};
use crate::config::Config;
use crate::connection_operations::save_player;
use crate::directory::{texts, views, Directory};
use crate::disconnect::{departed, on_disconnect};
use crate::error::BrokerError;
use crate::models::{AdminMessage, Connection, ConnectionView, Role};
use crate::notices::{
    admin_of, after_departure, after_promotion, after_selection, departure_notices, refill_notices,
    selection_notices,
};
use crate::occupancy::{
    consistent, deadline_fits, lemma_deadlines_put, lemma_tally_push, lemma_tally_without,
    within_capacity,
};
use crate::records::{lookup, matching, well_formed, without};
use crate::router::{resolve, targets};
use crate::send::{outbox, Delivery, Outbound, OutboundView};
use crate::seq_facts::lemma_filter_keeps_none;
use crate::sweeper::{on_slot_vacated, refilled};
use vstd::prelude::*;

verus! {

/// The record of a connection that has just arrived.
pub open spec fn newcomer(id: Seq<char>, stamp: u64) -> ConnectionView {
    ConnectionView { id, role: Role::Observer, que: false, sequence: stamp, clear_at: None }
}

/// The directory after an attempt to deliver to a connection: as a
/// disconnect leaves it where the transport found the connection gone, and
/// as it was otherwise.
pub open spec fn settled_records(
    records: Seq<ConnectionView>,
    id: Seq<char>,
    delivery: Delivery,
) -> Seq<
    ConnectionView,
> {
    if delivery == Delivery::Gone {
        departed(records, id)
    } else {
        records
    }
}

/// What is sent after an attempt to deliver to a connection: what a
/// disconnect calls for where the transport found the connection gone, and
/// nothing otherwise.
pub open spec fn settled_notices(
    records: Seq<ConnectionView>,
    id: Seq<char>,
    delivery: Delivery,
) -> Seq<
    OutboundView,
> {
    if delivery == Delivery::Gone {
        departure_notices(records, id)
    } else {
        Seq::empty()
    }
}

/// What a request for a role came to, and what to send on account of it.
#[derive(Debug)]
pub struct Selection {
    pub decision: Decision,
    pub outbox: Vec<Outbound>,
}

/// The broker: the connection directory under the rules of admission,
/// queueing and promotion. Whatever is asked of it, no admin role ever has
/// two holders, and no player role more holders than it has slots. The
/// directory can be read from outside, and written only through the broker.
pub struct Broker {
    directory: Directory,
    config: Config,
}

impl View for Broker {
    type V = Seq<ConnectionView>;

    closed spec fn view(&self) -> Seq<ConnectionView> {
        self.directory@
    }
}

impl Broker {
    /// The stamp that the directory's next write will carry.
    pub closed spec fn next(&self) -> u64 {
        self.directory.next()
    }

    /// The settings that the broker was made with.
    pub closed spec fn settings(&self) -> &Config {
        &self.config
    }

    /// What holds of a broker at all times: its directory is well formed,
    /// no role has more holders than it has slots, and only a queue entry
    /// that lapses has a deadline.
    pub open spec fn wf(&self) -> bool {
        &&& well_formed(self@, self.next())
        &&& self.settings().wf()
        &&& consistent(self@, self.settings())
    }

    /// A broker with an empty directory; none where the settings leave a
    /// player role without a slot.
    pub fn new(config: Config) -> (made: Option<Broker>)
        ensures
            match made {
                Some(broker) => {
                    &&& config.wf()
                    &&& broker.wf()
                    &&& broker@ == Seq::<ConnectionView>::empty()
                    &&& broker.next() == 0
                    &&& broker.settings() == config
                },
                None => !config.wf(),
            },
    {
        if config.pong.capacity == 0 || config.display.capacity == 0 {
            return None;
        }
        let directory = Directory::new();
        proof {
            assert forall|role: Role| within_capacity(directory@, &config, role) by {
                lemma_filter_keeps_none(directory@, matching(role, false));
            }
        }
        Some(Broker { directory, config })
    }

    /// A broker over a directory that exists already; none where the
    /// settings leave a player role without a slot, where a role has more
    /// holders in the directory than the settings give it slots, or where a
    /// record has a deadline that it should not have.
    pub fn restore(config: Config, directory: Directory) -> (made: Option<Broker>)
        requires
            directory.wf(),
        ensures
            match made {
                Some(broker) => {
                    &&& config.wf()
                    &&& consistent(directory@, &config)
                    &&& broker.wf()
                    &&& broker@ == directory@
                    &&& broker.next() == directory.next()
                    &&& broker.settings() == config
                },
                None => !(config.wf() && consistent(directory@, &config)),
            },
    {
        if config.pong.capacity == 0 || config.display.capacity == 0 {
            return None;
        }
        if directory.count(Role::AdminPong, false) > 1 {
            assert(!within_capacity(directory@, &config, Role::AdminPong));
            return None;
        }
        if directory.count(Role::AdminDisplay, false) > 1 {
            assert(!within_capacity(directory@, &config, Role::AdminDisplay));
            return None;
        }
        if directory.count(Role::PlayerPong, false) > config.pong.capacity {
            assert(!within_capacity(directory@, &config, Role::PlayerPong));
            return None;
        }
        if directory.count(Role::PlayerDisplay, false) > config.display.capacity {
            assert(!within_capacity(directory@, &config, Role::PlayerDisplay));
            return None;
        }
        let all = directory.snapshot();
        let mut i: usize = 0;
        while i < all.len()
            invariant
                i <= all.len(),
                views(all@) == directory@,
                forall|k: int| 0 <= k < i ==> deadline_fits(#[trigger] directory@[k], &config),
            decreases all.len() - i,
        {
            assert(all@[i as int]@ == directory@[i as int]);
            if all[i].clear_at.is_some() && !(all[i].que && config.grace_period(
                all[i].role,
            ).is_some()) {
                assert(!deadline_fits(directory@[i as int], &config));
                return None;
            }
            i += 1;
        }
        Some(Broker { directory, config })
    }

    pub fn directory(&self) -> (dir: &Directory)
        ensures
            dir@ == self@,
            dir.next() == self.next(),
    {
        &self.directory
    }

    pub fn config(&self) -> (config: &Config)
        ensures
            config == self.settings(),
    {
        &self.config
    }

    /// A connection has arrived: it is recorded as an observer that waits
    /// for nothing. A record that the id had before is replaced.
    pub fn handle_connect(&mut self, id: &str) -> (outcome: Result<Connection, BrokerError>)
        requires
            old(self).wf(),
        ensures
            final(self).wf(),
            final(self).settings() == old(self).settings(),
            match outcome {
                Ok(c) => {
                    &&& old(self).next() < u64::MAX
                    &&& final(self).next() == old(self).next() + 1
                    &&& c@ == newcomer(id@, old(self).next())
                    &&& final(self)@ == without(old(self)@, id@).push(c@)
                },
                Err(e) => {
                    &&& e == BrokerError::StorageUnavailable
                    &&& old(self).next() == u64::MAX
                    &&& final(self)@ == old(self)@
                    &&& final(self).next() == old(self).next()
                },
            },
    {
        let ghost before = self.directory@;
        let outcome = save_player(&mut self.directory, String::from_str(id));
        proof {
            if outcome.is_ok() {
                let rest = without(before, id@);
                assert forall|r: Role| within_capacity(self.directory@, &self.config, r) by {
                    assert(within_capacity(before, &self.config, r));
                    lemma_tally_without(before, id@, r, false);
                    lemma_tally_push(rest, newcomer(id@, old(self).next()), r, false);
                }
                lemma_deadlines_put(before, &self.config, newcomer(id@, old(self).next()));
            }
        }
        outcome
    }

    /// A connection is gone, because it closed or because a delivery to it
    /// found it gone. Its record is removed. Where it held a slot of a
    /// player role, the one that has waited longest for the role moves up.
    /// The messages to send are handed out, in the order in which to send
    /// them. A connection that is not known changes nothing and calls for
    /// no message.
    pub fn handle_disconnect(&mut self, id: &str) -> (notices: Vec<Outbound>)
        requires
            old(self).wf(),
        ensures
            final(self).wf(),
            final(self).settings() == old(self).settings(),
            final(self).next() == old(self).next(),
            final(self)@ == departed(old(self)@, id@),
            outbox(notices@) == departure_notices(old(self)@, id@),
    {
        let gone = on_disconnect(&mut self.directory, &self.config, id);
        after_departure(&gone)
    }

    /// A connection asks for a role. The request is judged and the directory
    /// written as admission has it; the messages to send are handed out with
    /// the decision. Fails, with nothing written, where the connection is
    /// not known and where the directory has no stamp left for the write.
    pub fn handle_role_selection(
        &mut self,
        id: &str,
        role: Role,
        credential: Option<&str>,
        now: u64,
    ) -> (outcome: Result<Selection, BrokerError>)
        requires
            old(self).wf(),
            old(self).settings().grace(role) matches Some(grace) ==> now + grace <= u64::MAX,
        ensures
            final(self).wf(),
            final(self).settings() == old(self).settings(),
            ({
                let expected = admission(
                    old(self)@,
                    old(self).next(),
                    old(self).settings(),
                    id@,
                    role,
                    match credential {
                        Some(text) => Some(text@),
                        None => None,
                    },
                    now,
                );
                &&& final(self)@ == expected.records
                &&& final(self).next() == expected.next
                &&& match outcome {
                    Ok(selection) => {
                        &&& expected.result == Ok::<Decision, BrokerError>(selection.decision)
                        &&& outbox(selection.outbox@) == selection_notices(
                            expected.records,
                            id@,
                            role,
                            selection.decision,
                        )
                    },
                    Err(e) => expected.result == Err::<Decision, BrokerError>(e),
                }
            }),
    {
        match request_role(&mut self.directory, &self.config, id, role, credential, now) {
            Ok(decision) => {
                let outbox = after_selection(&self.directory, id, role, decision);
                Ok(Selection { decision, outbox })
            },
            Err(e) => Err(e),
        }
    }

    /// A slot of a role may have fallen free. If nobody holds the role and
    /// somebody waits for it, the one that has waited longest moves up; the
    /// messages to send on that account are handed out.
    pub fn handle_slot_vacated(&mut self, role: Role) -> (notices: Vec<Outbound>)
        requires
            old(self).wf(),
        ensures
            final(self).wf(),
            final(self).settings() == old(self).settings(),
            final(self).next() == old(self).next(),
            final(self)@ == refilled(old(self)@, role),
            outbox(notices@) == refill_notices(old(self)@, role),
    {
        let admin = admin_of(&self.directory, role);
        let risen = on_slot_vacated(&mut self.directory, &self.config, role);
        after_promotion(role, &admin, &risen)
    }

    /// The connections that a client's message must reach. The caller sends
    /// it to each, and reports back with `handle_delivery` what the
    /// transport said.
    pub fn handle_client_message(&self, id: &str, message: &AdminMessage) -> (found: Result<
        Vec<String>,
        BrokerError,
    >)
        requires
            self.wf(),
        ensures
            match found {
                Ok(reached) => {
                    &&& lookup(self@, id@) matches Some(sender)
                    &&& texts(reached@) == targets(
                        self@,
                        sender,
                        match message.connection_id {
                            Some(t) => Some(t@),
                            None => None,
                        },
                    )
                },
                Err(e) => e == BrokerError::NotFound && lookup(self@, id@).is_none(),
            },
    {
        match &message.connection_id {
            Some(t) => resolve(&self.directory, id, Some(t.as_str())),
            None => resolve(&self.directory, id, None),
        }
    }

    /// What the transport said of a delivery to a connection. A connection
    /// that is gone is handled as one that disconnected, and what that calls
    /// for is handed out. A delivery that went through changes nothing; one
    /// that failed for the moment changes nothing either, and is reported as
    /// the error that the caller may try again on.
    pub fn handle_delivery(&mut self, id: &str, delivery: Delivery) -> (settled: Result<
        Vec<Outbound>,
        BrokerError,
    >)
        requires
            old(self).wf(),
        ensures
            final(self).wf(),
            final(self).settings() == old(self).settings(),
            final(self).next() == old(self).next(),
            final(self)@ == settled_records(old(self)@, id@, delivery),
            match settled {
                Ok(notices) => {
                    &&& delivery != Delivery::TransientError
                    &&& outbox(notices@) == settled_notices(old(self)@, id@, delivery)
                },
                Err(e) => {
                    &&& delivery == Delivery::TransientError
                    &&& e == BrokerError::TransportUnavailable
                },
            },
    {
        match delivery {
            Delivery::Gone => Ok(self.handle_disconnect(id)),
            Delivery::Delivered => {
                let notices: Vec<Outbound> = Vec::new();
                proof {
                    assert(outbox(notices@) =~= Seq::<OutboundView>::empty());
                }
                Ok(notices)
            },
            Delivery::TransientError => Err(BrokerError::TransportUnavailable),
        }
    }
}

} // verus!
