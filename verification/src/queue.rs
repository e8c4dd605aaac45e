//! The queue manager: promotion of the connection that has waited longest.

use crate::config::Config;
use crate::connection_operations::{find_next_in_que, mark_player_active};
use crate::directory::Directory;
use crate::models::{Connection, ConnectionView, Role};
use crate::occupancy::{deadlines_fit, lemma_deadlines_activated, lemma_tally_revised, tally};
use crate::records::{
    activated, active, front, lemma_activated, lemma_front_is_record, lemma_lookup,
    lemma_lookup_activated, lemma_revised_well_formed, lookup, matching, nobody_waits, unique_ids,
    well_formed,
};
use crate::seq_facts::{lemma_filter_keeps_none, lemma_filter_split};
use vstd::prelude::*;

verus! {

/// The records after the front of a role's queue has been promoted; the
/// records as they are where nobody waits for the role.
pub open spec fn promoted(records: Seq<ConnectionView>, role: Role) -> Seq<ConnectionView> {
    match front(records, role) {
        Some(c) => activated(records, c.id),
        None => records,
    }
}

/// What a step may do to the record of a connection that it is not about:
/// leave it as it is, or, if it waits, promote it.
pub open spec fn untouched_or_risen(
    before: Option<ConnectionView>,
    after: Option<ConnectionView>,
) -> bool {
    match before {
        Some(b) => after == Some(b) || (b.que && after == Some(active(b))),
        None => after.is_none(),
    }
}

/// Promotes the connection that has waited longest for a role, if any waits:
/// it then holds the role, and its deadline is gone. The choice goes by the
/// stamps alone, and the write is the guarded one that only a connection
/// which still waits can pass.
pub fn promote_next(dir: &mut Directory, role: Role) -> (risen: Option<Connection>)
    requires
        old(dir).wf(),
    ensures
        final(dir).wf(),
        final(dir).next() == old(dir).next(),
        final(dir)@ == promoted(old(dir)@, role),
        match risen {
            Some(c) => {
                &&& front(old(dir)@, role) matches Some(f)
                &&& c@ == active(f)
                &&& lookup(final(dir)@, f.id) == Some(c@)
            },
            None => front(old(dir)@, role).is_none() && final(dir)@ == old(dir)@,
        },
{
    match find_next_in_que(dir, role) {
        Ok(c) => {
            proof {
                lemma_front_is_record(dir@, role);
            }
            let ghost before = dir@;
            let risen = Connection {
                id: c.id.clone(),
                role: c.role,
                que: false,
                sequence: c.sequence,
                clear_at: None,
            };
            if mark_player_active(dir, c.id) {
                proof {
                    let k = choose|k: int| 0 <= k < before.len() && before[k] == c@;
                    assert(dir@[k] == risen@);
                    lemma_lookup(dir@, c@.id, k);
                }
                Some(risen)
            } else {
                None
            }
        },
        Err(_) => None,
    }
}

/// A promotion leaves every record that does not wait as it is.
pub proof fn lemma_keeps_holder(records: Seq<ConnectionView>, role: Role, c: ConnectionView)
    requires
        unique_ids(records),
        lookup(records, c.id) == Some(c),
        !c.que,
    ensures
        lookup(promoted(records, role), c.id) == Some(c),
        unique_ids(promoted(records, role)),
{
    let after = promoted(records, role);
    let i = choose|i: int| 0 <= i < records.len() && (#[trigger] records[i]).id == c.id;
    assert(after.len() == records.len());
    assert(after[i] == c);
    assert forall|a: int, b: int| 0 <= a < b < after.len() implies (#[trigger] after[a]).id != (
    #[trigger] after[b]).id by {
        assert(after[a].id == records[a].id);
        assert(after[b].id == records[b].id);
    }
    lemma_lookup(after, c.id, i);
}

/// A promotion gives no record a deadline that it should not have.
pub proof fn lemma_deadlines_promoted(records: Seq<ConnectionView>, config: &Config, role: Role)
    requires
        deadlines_fit(records, config),
    ensures
        deadlines_fit(promoted(records, role), config),
{
    match front(records, role) {
        Some(f) => {
            lemma_deadlines_activated(records, config, f.id);
        },
        None => {},
    }
}

/// A promotion adds one holder to the role whose queue it serves, if anyone
/// waited, and none to any other role.
pub proof fn lemma_tally_promoted(records: Seq<ConnectionView>, role: Role, r: Role)
    requires
        unique_ids(records),
    ensures
        tally(promoted(records, role), r, false) == tally(records, r, false) + (if r == role
            && front(records, role).is_some() {
            1int
        } else {
            0int
        }),
        tally(promoted(records, role), r, true) == tally(records, r, true) - (if r == role
            && front(records, role).is_some() {
            1int
        } else {
            0int
        }),
{
    match front(records, role) {
        Some(f) => {
            lemma_front_is_record(records, role);
            lemma_activated(records, f.id);
            lemma_tally_revised(records, f.id, role, true, false, None, r, false);
            lemma_tally_revised(records, f.id, role, true, false, None, r, true);
        },
        None => {},
    }
}

/// A promotion leaves a well-formed directory well formed.
pub proof fn lemma_promoted_well_formed(records: Seq<ConnectionView>, next: u64, role: Role)
    requires
        well_formed(records, next),
    ensures
        well_formed(promoted(records, role), next),
{
    match front(records, role) {
        Some(f) => {
            lemma_front_is_record(records, role);
            lemma_activated(records, f.id);
            lemma_revised_well_formed(records, next, f.id, role, true, false, None);
        },
        None => {},
    }
}

/// A promotion leaves every record as it is, but for the one it promotes.
pub proof fn lemma_lookup_promoted(records: Seq<ConnectionView>, role: Role, other: Seq<char>)
    requires
        unique_ids(records),
    ensures
        untouched_or_risen(lookup(records, other), lookup(promoted(records, role), other)),
{
    match front(records, role) {
        Some(f) => {
            lemma_lookup_activated(records, f.id, other);
        },
        None => {},
    }
}

/// Nobody waits for a role exactly where its queue counts nobody.
pub proof fn lemma_empty_queue(records: Seq<ConnectionView>, role: Role)
    ensures
        front(records, role).is_none() <==> tally(records, role, true) == 0,
{
    let p = matching(role, true);
    if nobody_waits(records, role) {
        lemma_filter_keeps_none(records, p);
    } else {
        let i = choose|i: int|
            0 <= i < records.len() && (#[trigger] records[i]).role == role && records[i].que;
        lemma_filter_split(records, p, i);
    }
}

} // verus!
