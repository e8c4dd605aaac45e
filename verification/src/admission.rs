//! The admission controller: who gets a role, who waits for it, who is
//! refused.

use crate::config::Config;
use crate::connection_operations::{
    get_player_count_by_role, save_connection, time_out_first_in_que,
};
use crate::directory::Directory;
use crate::error::BrokerError;
use crate::models::{Connection, ConnectionView, Role};
use crate::occupancy::{
    consistent, lemma_deadlines_put, lemma_tally_push, lemma_tally_without, tally, within_capacity,
};
use crate::records::{earlier, lemma_lookup, lemma_revised, lookup, revised, settled, without};
use vstd::prelude::*;

verus! {

/// Why a role was refused.
#[derive(Clone, Copy, Debug, PartialEq, Eq, Structural)]
pub enum Rejection {
    /// The password does not open the admin role.
    Unauthorized,
    /// Another connection holds the admin role.
    AlreadyBound,
}

impl Rejection {
    /// The refusal as an error, for a caller that treats it as one.
    pub fn error(self) -> (e: BrokerError)
        ensures
            e == match self {
                Rejection::Unauthorized => BrokerError::Unauthorized,
                Rejection::AlreadyBound => BrokerError::AlreadyBound,
            },
    {
        match self {
            Rejection::Unauthorized => BrokerError::Unauthorized,
            Rejection::AlreadyBound => BrokerError::AlreadyBound,
        }
    }
}

/// What became of a request for a role.
#[derive(Clone, Copy, Debug, PartialEq, Eq, Structural)]
pub enum Decision {
    /// The connection holds the role.
    Accepted,
    /// The role is full. The connection waits, behind so many others.
    Queued(usize),
    /// The connection did not get the role and does not wait for it.
    Rejected(Rejection),
}

/// What admission does with a request, before anything is written.
pub enum Verdict {
    /// The connection holds the role already: nothing to write.
    Keep,
    /// A slot is free: the connection takes it.
    Claim,
    /// The role is full: the connection joins its queue.
    Enqueue,
    Reject(Rejection),
}

/// How a request is judged. An admin role wants the password before anything
/// else. A connection that holds the role keeps it. Otherwise a free slot is
/// claimed; without one an admin role is refused, and a player role queues.
pub open spec fn verdict(
    records: Seq<ConnectionView>,
    config: &Config,
    id: Seq<char>,
    role: Role,
    credential: Option<Seq<char>>,
) -> Result<Verdict, BrokerError> {
    match lookup(records, id) {
        None => Err(BrokerError::NotFound),
        Some(current) => if role.is_admin() && !config.admits(credential) {
            Ok(Verdict::Reject(Rejection::Unauthorized))
        } else if current.role == role && !current.que {
            Ok(Verdict::Keep)
        } else {
            match config.capacity(role) {
                Some(k) => if tally(records, role, false) < k {
                    Ok(Verdict::Claim)
                } else if role.is_admin() {
                    Ok(Verdict::Reject(Rejection::AlreadyBound))
                } else {
                    Ok(Verdict::Enqueue)
                },
                None => Ok(Verdict::Claim),
            }
        },
    }
}

/// The record of a connection that has taken a slot.
pub open spec fn holder(id: Seq<char>, role: Role, stamp: u64) -> ConnectionView {
    ConnectionView { id, role, que: false, sequence: stamp, clear_at: None }
}

/// The record of a connection that has joined a queue.
pub open spec fn waiter(
    id: Seq<char>,
    role: Role,
    stamp: u64,
    clear_at: Option<u64>,
) -> ConnectionView {
    ConnectionView { id, role, que: true, sequence: stamp, clear_at }
}

/// When an entry that joins the role's queue at `now` lapses, if it does.
pub open spec fn deadline(config: &Config, role: Role, now: u64) -> Option<u64> {
    match config.grace(role) {
        Some(grace) => Some((now + grace) as u64),
        None => None,
    }
}

/// The records after the connection has taken a slot of the role.
pub open spec fn claimed(
    records: Seq<ConnectionView>,
    id: Seq<char>,
    role: Role,
    stamp: u64,
) -> Seq<
    ConnectionView,
> {
    without(records, id).push(holder(id, role, stamp))
}

/// The records after the connection has joined the role's queue.
pub open spec fn enqueued(
    records: Seq<ConnectionView>,
    id: Seq<char>,
    role: Role,
    stamp: u64,
    clear_at: Option<u64>,
) -> Seq<ConnectionView> {
    without(records, id).push(waiter(id, role, stamp, clear_at))
}

/// A request's result, and the directory after it.
pub struct Admission {
    pub result: Result<Decision, BrokerError>,
    pub records: Seq<ConnectionView>,
    pub next: u64,
}

/// What a request for a role comes to. Nothing is written unless a slot is
/// claimed or a queue joined, and then only if a stamp is left; the place in
/// the queue is the number of entries that joined it earlier.
pub open spec fn admission(
    records: Seq<ConnectionView>,
    next: u64,
    config: &Config,
    id: Seq<char>,
    role: Role,
    credential: Option<Seq<char>>,
    now: u64,
) -> Admission {
    match verdict(records, config, id, role, credential) {
        Err(e) => Admission { result: Err(e), records, next },
        Ok(Verdict::Keep) => Admission { result: Ok(Decision::Accepted), records, next },
        Ok(Verdict::Reject(why)) => Admission {
            result: Ok(Decision::Rejected(why)),
            records,
            next,
        },
        Ok(Verdict::Claim) => if next == u64::MAX {
            Admission { result: Err(BrokerError::StorageUnavailable), records, next }
        } else {
            Admission {
                result: Ok(Decision::Accepted),
                records: claimed(records, id, role, next),
                next: (next + 1) as u64,
            }
        },
        Ok(Verdict::Enqueue) => if next == u64::MAX {
            Admission { result: Err(BrokerError::StorageUnavailable), records, next }
        } else {
            let after = enqueued(records, id, role, next, deadline(config, role, now));
            Admission {
                result: Ok(Decision::Queued(earlier(after, role, next).len() as usize)),
                records: after,
                next: (next + 1) as u64,
            }
        },
    }
}

/// Gives a connection a slot of a role: its record is written anew, holding
/// the role and not waiting.
pub fn set_role(dir: &mut Directory, id: &str, role: Role) -> (saved: Result<
    Connection,
    BrokerError,
>)
    requires
        old(dir).wf(),
    ensures
        final(dir).wf(),
        match saved {
            Ok(c) => {
                &&& old(dir).next() < u64::MAX
                &&& final(dir).next() == old(dir).next() + 1
                &&& c@ == holder(id@, role, old(dir).next())
                &&& final(dir)@ == claimed(old(dir)@, id@, role, old(dir).next())
            },
            Err(e) => {
                &&& e == BrokerError::StorageUnavailable
                &&& old(dir).next() == u64::MAX
                &&& final(dir)@ == old(dir)@
                &&& final(dir).next() == old(dir).next()
            },
        },
{
    let record = Connection {
        id: String::from_str(id),
        role,
        que: false,
        sequence: 0,
        clear_at: None,
    };
    save_connection(dir, record)
}

/// Puts a connection at the end of a role's queue, with a deadline where the
/// role's entries lapse, and says how many entries joined the queue earlier.
pub fn put_into_que(
    dir: &mut Directory,
    config: &Config,
    id: &str,
    role: Role,
    now: u64,
) -> (saved: Result<(Connection, usize), BrokerError>)
    requires
        old(dir).wf(),
        config.grace(role) matches Some(grace) ==> now + grace <= u64::MAX,
    ensures
        final(dir).wf(),
        match saved {
            Ok((c, place)) => {
                &&& old(dir).next() < u64::MAX
                &&& final(dir).next() == old(dir).next() + 1
                &&& c@ == waiter(id@, role, old(dir).next(), deadline(config, role, now))
                &&& final(dir)@ == enqueued(
                    old(dir)@,
                    id@,
                    role,
                    old(dir).next(),
                    deadline(config, role, now),
                )
                &&& place == earlier(final(dir)@, role, old(dir).next()).len()
            },
            Err(e) => {
                &&& e == BrokerError::StorageUnavailable
                &&& old(dir).next() == u64::MAX
                &&& final(dir)@ == old(dir)@
                &&& final(dir).next() == old(dir).next()
            },
        },
{
    let ghost before = dir@;
    let ghost stamp = dir.next();
    match crate::connection_operations::put_into_que(dir, String::from_str(id), role) {
        Ok(entry) => {
            let ghost plain = waiter(id@, role, stamp, None);
            proof {
                let rest = without(before, id@);
                assert(dir@ == rest.push(plain));
                assert(dir@[rest.len() as int] == plain);
                lemma_lookup(dir@, id@, rest.len() as int);
            }
            let saved = match config.grace_period(role) {
                Some(grace) => {
                    proof {
                        let rest = without(before, id@);
                        let due = Some((now + grace) as u64);
                        lemma_revised(dir@, id@, role, true, true, due);
                        let i = choose|i: int|
                            0 <= i < dir@.len() && dir@[i] == plain && revised(
                                dir@,
                                id@,
                                role,
                                true,
                                true,
                                due,
                            ) == dir@.update(i, settled(plain, true, due));
                        assert(i == rest.len());
                        assert(dir@.update(i, settled(plain, true, due)) =~= rest.push(
                            waiter(id@, role, stamp, due),
                        ));
                    }
                    let _ = time_out_first_in_que(dir, id, role, now, grace);
                    Connection {
                        id: entry.id,
                        role,
                        que: true,
                        sequence: entry.sequence,
                        clear_at: Some(now + grace),
                    }
                },
                None => entry,
            };
            let place = dir.rank(role, saved.sequence);
            Ok((saved, place))
        },
        Err(e) => Err(e),
    }
}

/// The admission controller. Judges a connection's request for a role and
/// writes what the judgement asks for: a claimed slot, a queue entry, or
/// nothing. No role ever has more holders than slots afterwards.
pub fn request_role(
    dir: &mut Directory,
    config: &Config,
    id: &str,
    role: Role,
    credential: Option<&str>,
    now: u64,
) -> (outcome: Result<Decision, BrokerError>)
    requires
        old(dir).wf(),
        config.wf(),
        consistent(old(dir)@, config),
        config.grace(role) matches Some(grace) ==> now + grace <= u64::MAX,
    ensures
        final(dir).wf(),
        consistent(final(dir)@, config),
        ({
            let expected = admission(
                old(dir)@,
                old(dir).next(),
                config,
                id@,
                role,
                match credential {
                    Some(text) => Some(text@),
                    None => None,
                },
                now,
            );
            &&& outcome == expected.result
            &&& final(dir)@ == expected.records
            &&& final(dir).next() == expected.next
        }),
{
    let ghost before = dir@;
    let current = match dir.get(id) {
        Some(c) => c,
        None => {
            return Err(BrokerError::NotFound);
        },
    };
    if role.admin() && !config.check(credential) {
        return Ok(Decision::Rejected(Rejection::Unauthorized));
    }
    if current.role == role && !current.que {
        return Ok(Decision::Accepted);
    }
    let free = match config.slots(role) {
        Some(k) => get_player_count_by_role(dir, role) < k,
        None => true,
    };
    if free {
        match set_role(dir, id, role) {
            Ok(_) => {
                proof {
                    let rest = without(before, id@);
                    let fresh = holder(id@, role, old(dir).next());
                    assert forall|r: Role| within_capacity(dir@, config, r) by {
                        assert(within_capacity(before, config, r));
                        lemma_tally_without(before, id@, r, false);
                        lemma_tally_push(rest, fresh, r, false);
                    }
                    lemma_deadlines_put(before, config, fresh);
                }
                Ok(Decision::Accepted)
            },
            Err(e) => Err(e),
        }
    } else if role.admin() {
        Ok(Decision::Rejected(Rejection::AlreadyBound))
    } else {
        match put_into_que(dir, config, id, role, now) {
            Ok((_, place)) => {
                proof {
                    let rest = without(before, id@);
                    let fresh = waiter(id@, role, old(dir).next(), deadline(config, role, now));
                    assert forall|r: Role| within_capacity(dir@, config, r) by {
                        assert(within_capacity(before, config, r));
                        lemma_tally_without(before, id@, r, false);
                        lemma_tally_push(rest, fresh, r, false);
                    }
                    lemma_deadlines_put(before, config, fresh);
                }
                Ok(Decision::Queued(place))
            },
            Err(e) => Err(e),
        }
    }
}

} // verus!
