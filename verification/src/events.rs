//! The events that reach the broker, as far as the broker reads them.

use crate::models::Role;
use vstd::prelude::*;

verus! {

/// Where an event came from, as far as the gateway says: the kind of event,
/// the connection, and the host and stage through which it can be answered.
#[derive(Debug)]
pub struct RequestContext {
    pub event_type: Option<String>,
    pub connection_id: Option<String>,
    pub domain_name: Option<String>,
    pub stage: Option<String>,
}

impl Clone for RequestContext {
    fn clone(&self) -> (copy: RequestContext)
        ensures
            copy.event_type == self.event_type,
            copy.connection_id == self.connection_id,
            copy.domain_name == self.domain_name,
            copy.stage == self.stage,
    {
        RequestContext {
            event_type: self.event_type.clone(),
            connection_id: self.connection_id.clone(),
            domain_name: self.domain_name.clone(),
            stage: self.stage.clone(),
        }
    }
}

/// A change in the directory's table, as its change feed reports it: what
/// happened to the record, and the role the record had before.
#[derive(Debug)]
pub struct StreamRecord {
    pub event_name: String,
    pub old_role: Option<String>,
}

/// One event as the broker receives it.
#[derive(Debug)]
pub struct Event {
    pub request_context: RequestContext,
    pub records: Option<Vec<StreamRecord>>,
    pub body: Option<String>,
}

impl Event {
    /// The text that the event carries. Only an event with a body has one.
    pub fn message(&self) -> (text: String)
        requires
            self.body.is_some(),
        ensures
            text@ == self.body.unwrap()@,
    {
        match &self.body {
            Some(body) => body.clone(),
            None => String::new(),
        }
    }
}

/// Whether the record reports that a directory entry was removed.
pub open spec fn removal(record: &StreamRecord) -> bool {
    record.event_name@ == "REMOVE"@
}

/// The roles that the removed entries had, in the order of the records. A
/// record of another kind of change names no role.
pub open spec fn vacated(records: Seq<StreamRecord>) -> Seq<Role>
    decreases records.len(),
{
    if records.len() == 0 {
        Seq::empty()
    } else {
        let rest = vacated(records.drop_last());
        let last = records.last();
        if removal(&last) {
            rest.push(Role::named(last.old_role.unwrap()@))
        } else {
            rest
        }
    }
}

/// The roles in which the change feed reports a removal. Every removal must
/// name the role that the entry had.
pub fn vacated_roles(records: &Vec<StreamRecord>) -> (roles: Vec<Role>)
    requires
        forall|i: int|
            0 <= i < records.len() && removal(#[trigger] &records[i])
                ==> records[i].old_role.is_some(),
    ensures
        roles@ == vacated(records@),
{
    let mut roles: Vec<Role> = Vec::new();
    let mut i: usize = 0;
    assert(records@.subrange(0, 0) =~= Seq::<StreamRecord>::empty());
    while i < records.len()
        invariant
            i <= records.len(),
            roles@ == vacated(records@.subrange(0, i as int)),
            forall|k: int|
                0 <= k < records.len() && removal(#[trigger] &records[k])
                    ==> records[k].old_role.is_some(),
        decreases records.len() - i,
    {
        proof {
            let upto = records@.subrange(0, i + 1);
            assert(upto.drop_last() =~= records@.subrange(0, i as int));
            assert(upto.last() == records@[i as int]);
        }
        if records[i].event_name.as_str().eq("REMOVE") {
            match &records[i].old_role {
                Some(name) => {
                    roles.push(Role::from_name(name.as_str()));
                },
                None => {},
            }
        }
        i += 1;
    }
    assert(records@.subrange(0, i as int) =~= records@);
    roles
}

} // verus!
