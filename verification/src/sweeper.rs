//! The timeout sweeper: what happens when a slot may have fallen free.

use crate::config::Config;
use crate::connection_operations::has_player;
use crate::directory::{seen, Directory};
use crate::disconnect::successor;
use crate::models::{Connection, ConnectionView, Role};
use crate::occupancy::{consistent, tally, within_capacity};
use crate::queue::{lemma_deadlines_promoted, lemma_tally_promoted, promote_next, promoted};
use vstd::prelude::*;

verus! {

/// The records after a role's vacancy has been looked into: where nobody
/// holds the role, the front of its queue has moved up.
pub open spec fn refilled(records: Seq<ConnectionView>, role: Role) -> Seq<ConnectionView> {
    if tally(records, role, false) == 0 {
        promoted(records, role)
    } else {
        records
    }
}

/// The timeout sweeper's reaction to a slot that may have fallen free: if
/// nobody holds the role and somebody waits for it, the one that has waited
/// longest moves up and is handed out.
pub fn on_slot_vacated(dir: &mut Directory, config: &Config, role: Role) -> (risen: Option<
    Connection,
>)
    requires
        old(dir).wf(),
        config.wf(),
        consistent(old(dir)@, config),
    ensures
        final(dir).wf(),
        consistent(final(dir)@, config),
        final(dir).next() == old(dir).next(),
        final(dir)@ == refilled(old(dir)@, role),
        seen(risen) == if tally(old(dir)@, role, false) == 0 {
            successor(old(dir)@, role)
        } else {
            None
        },
{
    if has_player(dir, role) {
        return None;
    }
    let ghost before = dir@;
    let risen = promote_next(dir, role);
    proof {
        assert forall|r: Role| within_capacity(dir@, config, r) by {
            assert(within_capacity(before, config, r));
            lemma_tally_promoted(before, role, r);
        }
        lemma_deadlines_promoted(before, config, role);
    }
    risen
}

} // verus!
