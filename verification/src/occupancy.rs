//! How many connections hold a role, and what the settings allow.

use crate::config::Config;
use crate::models::{ConnectionView, Role};
use crate::records::{
    absent, activated, lemma_revised, lemma_without, lemma_without_absent, lookup, matching,
    revised, settled, unique_ids, without,
};
use crate::seq_facts::{lemma_filter_push, lemma_filter_split, lemma_filter_update};
use vstd::prelude::*;

verus! {

/// How many records have the role and wait (`que`), or have it and do not.
pub open spec fn tally(records: Seq<ConnectionView>, role: Role, que: bool) -> nat {
    records.filter(matching(role, que)).len()
}

/// 1 where the record counts towards `tally(.., role, que)`, else 0.
pub open spec fn counts(c: ConnectionView, role: Role, que: bool) -> int {
    if c.role == role && c.que == que {
        1
    } else {
        0
    }
}

/// The role has no more holders than it has slots.
pub open spec fn within_capacity(
    records: Seq<ConnectionView>,
    config: &Config,
    role: Role,
) -> bool {
    match config.capacity(role) {
        Some(k) => tally(records, role, false) <= k,
        None => true,
    }
}

/// No role has more holders than it has slots: one at most for each admin
/// role, the configured number for each player role.
pub open spec fn within_limits(records: Seq<ConnectionView>, config: &Config) -> bool {
    forall|role: Role| within_capacity(records, config, role)
}

/// A record has a deadline only if it waits for a role whose queue entries
/// lapse.
pub open spec fn deadline_fits(c: ConnectionView, config: &Config) -> bool {
    c.clear_at.is_some() ==> c.que && config.grace(c.role).is_some()
}

/// No record has a deadline that it should not have.
pub open spec fn deadlines_fit(records: Seq<ConnectionView>, config: &Config) -> bool {
    forall|i: int| 0 <= i < records.len() ==> deadline_fits(#[trigger] records[i], config)
}

/// What the broker keeps true of the records: no role has more holders than
/// slots, and only queue entries that lapse have a deadline.
pub open spec fn consistent(records: Seq<ConnectionView>, config: &Config) -> bool {
    within_limits(records, config) && deadlines_fit(records, config)
}

/// Taking a record out gives no other record a deadline.
pub proof fn lemma_deadlines_without(records: Seq<ConnectionView>, config: &Config, id: Seq<char>)
    requires
        unique_ids(records),
        deadlines_fit(records, config),
    ensures
        deadlines_fit(without(records, id), config),
{
    if absent(records, id) {
        lemma_without_absent(records, id);
    } else {
        let i = choose|i: int| 0 <= i < records.len() && (#[trigger] records[i]).id == id;
        lemma_without(records, id, i);
        let rest = records.remove(i);
        assert forall|k: int| 0 <= k < rest.len() implies deadline_fits(
            #[trigger] rest[k],
            config,
        ) by {
            if k < i {
                assert(rest[k] == records[k]);
            } else {
                assert(rest[k] == records[k + 1]);
            }
        }
    }
}

/// Writing a record whose deadline fits keeps every deadline fitting.
pub proof fn lemma_deadlines_put(records: Seq<ConnectionView>, config: &Config, c: ConnectionView)
    requires
        unique_ids(records),
        deadlines_fit(records, config),
        deadline_fits(c, config),
    ensures
        deadlines_fit(without(records, c.id).push(c), config),
{
    lemma_deadlines_without(records, config, c.id);
    let rest = without(records, c.id);
    let after = rest.push(c);
    assert forall|k: int| 0 <= k < after.len() implies deadline_fits(
        #[trigger] after[k],
        config,
    ) by {
        if k < rest.len() {
            assert(after[k] == rest[k]);
        }
    }
}

/// A promotion takes a deadline away and gives none.
pub proof fn lemma_deadlines_activated(
    records: Seq<ConnectionView>,
    config: &Config,
    id: Seq<char>,
)
    requires
        deadlines_fit(records, config),
    ensures
        deadlines_fit(activated(records, id), config),
{
    let after = activated(records, id);
    assert forall|k: int| 0 <= k < after.len() implies deadline_fits(
        #[trigger] after[k],
        config,
    ) by {
        assert(deadline_fits(records[k], config));
    }
}

/// A record added at the end counts once where it fits.
pub proof fn lemma_tally_push(
    records: Seq<ConnectionView>,
    c: ConnectionView,
    role: Role,
    que: bool,
)
    ensures
        tally(records.push(c), role, que) == tally(records, role, que) + counts(c, role, que),
{
    lemma_filter_push(records, matching(role, que), c);
}

/// Leaving a record out takes its count away.
pub proof fn lemma_tally_without(
    records: Seq<ConnectionView>,
    id: Seq<char>,
    role: Role,
    que: bool,
)
    requires
        unique_ids(records),
    ensures
        tally(without(records, id), role, que) == tally(records, role, que) - (match lookup(
            records,
            id,
        ) {
            Some(c) => counts(c, role, que),
            None => 0,
        }),
{
    if absent(records, id) {
        lemma_without_absent(records, id);
    } else {
        let i = choose|i: int| 0 <= i < records.len() && (#[trigger] records[i]).id == id;
        lemma_without(records, id, i);
        lemma_filter_split(records, matching(role, que), i);
    }
}

/// A guarded update moves the record's count from where it was to where it
/// is.
pub proof fn lemma_tally_revised(
    records: Seq<ConnectionView>,
    id: Seq<char>,
    guard: Role,
    que_before: bool,
    que_after: bool,
    clear_at: Option<u64>,
    role: Role,
    que: bool,
)
    requires
        unique_ids(records),
    ensures
        tally(revised(records, id, guard, que_before, que_after, clear_at), role, que) == tally(
            records,
            role,
            que,
        ) + (match lookup(records, id) {
            Some(b) => if b.role == guard && b.que == que_before {
                counts(settled(b, que_after, clear_at), role, que) - counts(b, role, que)
            } else {
                0
            },
            None => 0,
        }),
{
    lemma_revised(records, id, guard, que_before, que_after, clear_at);
    match lookup(records, id) {
        Some(b) => {
            if b.role == guard && b.que == que_before {
                let i = choose|i: int|
                    0 <= i < records.len() && records[i] == b && revised(
                        records,
                        id,
                        guard,
                        que_before,
                        que_after,
                        clear_at,
                    ) == records.update(i, settled(b, que_after, clear_at));
                lemma_filter_split(records, matching(role, que), i);
                lemma_filter_update(
                    records,
                    matching(role, que),
                    i,
                    settled(b, que_after, clear_at),
                );
            }
        },
        None => {},
    }
}

} // verus!
