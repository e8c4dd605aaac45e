//! What holds of the broker as a whole: the rules that every step keeps, and
//! what follows from them.

use crate::admission::{admission, deadline, holder, verdict, waiter, Decision, Verdict};
use crate::broker::newcomer;
use crate::config::Config;
use crate::disconnect::{departed, successor, vacates};
use crate::models::{ConnectionView, Role};
use crate::notices::departure_notices;
use crate::occupancy::{
    consistent, lemma_deadlines_put, lemma_deadlines_without, lemma_tally_push, lemma_tally_without,
    tally, within_capacity,
};
use crate::queue::{
    lemma_deadlines_promoted, lemma_empty_queue, lemma_keeps_holder, lemma_lookup_promoted,
    lemma_promoted_well_formed, lemma_tally_promoted, promoted, untouched_or_risen,
};
use crate::records::{
    absent, activated, front, lemma_front_is_record, lemma_lookup, lemma_lookup_push,
    lemma_lookup_without, lemma_put_well_formed, lemma_without_well_formed, lookup, matching,
    well_formed, without,
};
use crate::send::OutboundView;
use crate::seq_facts::{lemma_filter_keeps_none, lemma_filter_split};
use crate::sweeper::refilled;
use vstd::prelude::*;

verus! {

/// The directory as the rules see it: the records and the next stamp.
pub struct State {
    pub records: Seq<ConnectionView>,
    pub next: u64,
}

/// One thing that can happen to the broker.
pub enum Step {
    /// A connection arrives.
    Connect { id: Seq<char> },
    /// A connection asks for a role.
    Select { id: Seq<char>, role: Role, credential: Option<Seq<char>>, now: u64 },
    /// A connection closes, or a delivery finds it gone.
    Disconnect { id: Seq<char> },
    /// A slot of a role may have fallen free.
    Vacated { role: Role },
}

/// The directory after a connection has arrived.
pub open spec fn connected(state: State, id: Seq<char>) -> State {
    if state.next == u64::MAX {
        state
    } else {
        State {
            records: without(state.records, id).push(newcomer(id, state.next)),
            next: (state.next + 1) as u64,
        }
    }
}

/// The directory after one step.
pub open spec fn step(state: State, config: &Config, s: Step) -> State {
    match s {
        Step::Connect { id } => connected(state, id),
        Step::Select { id, role, credential, now } => {
            let a = admission(state.records, state.next, config, id, role, credential, now);
            State { records: a.records, next: a.next }
        },
        Step::Disconnect { id } => State { records: departed(state.records, id), next: state.next },
        Step::Vacated { role } => State {
            records: refilled(state.records, role),
            next: state.next,
        },
    }
}

/// The directory after a run of steps from the empty directory.
pub open spec fn run(config: &Config, steps: Seq<Step>) -> State
    decreases steps.len(),
{
    if steps.len() == 0 {
        State { records: Seq::empty(), next: 0 }
    } else {
        step(run(config, steps.drop_last()), config, steps.last())
    }
}

/// The directory is well formed, no role has more holders than slots, and
/// only queue entries that lapse have a deadline.
pub open spec fn sound(state: State, config: &Config) -> bool {
    well_formed(state.records, state.next) && consistent(state.records, config)
}

/// Whatever happens, what must hold of the directory goes on holding: it
/// stays well formed, no role gets more holders than it has slots, and no
/// record gets a deadline that it should not have.
pub proof fn law_step_keeps_sound(state: State, config: &Config, s: Step)
    requires
        config.wf(),
        sound(state, config),
    ensures
        sound(step(state, config, s), config),
{
    let records = state.records;
    let next = state.next;
    let after = step(state, config, s);
    match s {
        Step::Connect { id } => {
            if next < u64::MAX {
                let fresh = newcomer(id, next);
                lemma_put_well_formed(records, next, fresh);
                assert forall|r: Role| within_capacity(after.records, config, r) by {
                    assert(within_capacity(records, config, r));
                    lemma_tally_without(records, id, r, false);
                    lemma_tally_push(without(records, id), fresh, r, false);
                }
                lemma_deadlines_put(records, config, fresh);
            }
        },
        Step::Select { id, role, credential, now } => {
            match verdict(records, config, id, role, credential) {
                Ok(Verdict::Claim) => {
                    if next < u64::MAX {
                        let fresh = holder(id, role, next);
                        lemma_put_well_formed(records, next, fresh);
                        assert forall|r: Role| within_capacity(after.records, config, r) by {
                            assert(within_capacity(records, config, r));
                            lemma_tally_without(records, id, r, false);
                            lemma_tally_push(without(records, id), fresh, r, false);
                        }
                        lemma_deadlines_put(records, config, fresh);
                    }
                },
                Ok(Verdict::Enqueue) => {
                    if next < u64::MAX {
                        let fresh = waiter(id, role, next, deadline(config, role, now));
                        lemma_put_well_formed(records, next, fresh);
                        assert forall|r: Role| within_capacity(after.records, config, r) by {
                            assert(within_capacity(records, config, r));
                            lemma_tally_without(records, id, r, false);
                            lemma_tally_push(without(records, id), fresh, r, false);
                        }
                        lemma_deadlines_put(records, config, fresh);
                    }
                },
                _ => {},
            }
        },
        Step::Disconnect { id } => {
            match lookup(records, id) {
                Some(c) => {
                    let middle = if vacates(c) {
                        promoted(records, c.role)
                    } else {
                        records
                    };
                    if vacates(c) {
                        lemma_promoted_well_formed(records, next, c.role);
                        let i = choose|i: int|
                            0 <= i < records.len() && (#[trigger] records[i]).id == id;
                        lemma_lookup(records, id, i);
                        lemma_keeps_holder(records, c.role, c);
                    }
                    lemma_without_well_formed(middle, next, id);
                    assert forall|r: Role| within_capacity(after.records, config, r) by {
                        assert(within_capacity(records, config, r));
                        lemma_tally_without(middle, id, r, false);
                        if vacates(c) {
                            lemma_tally_promoted(records, c.role, r);
                        }
                    }
                    if vacates(c) {
                        lemma_deadlines_promoted(records, config, c.role);
                    }
                    lemma_deadlines_without(middle, config, id);
                },
                None => {},
            }
        },
        Step::Vacated { role } => {
            lemma_promoted_well_formed(records, next, role);
            assert forall|r: Role| within_capacity(after.records, config, r) by {
                assert(within_capacity(records, config, r));
                lemma_tally_promoted(records, role, r);
            }
            lemma_deadlines_promoted(records, config, role);
        },
    }
}

/// At all times, whatever has happened since the broker started with an
/// empty directory: the directory is sound, every admin role has one holder
/// at most, and every player role has no more holders than it has slots.
pub proof fn law_capacity_at_all_times(config: &Config, steps: Seq<Step>)
    requires
        config.wf(),
    ensures
        sound(run(config, steps), config),
        forall|role: Role|
            role.is_admin() ==> tally(run(config, steps).records, role, false) <= 1,
        forall|role: Role|
            role.is_player() ==> tally(run(config, steps).records, role, false)
                <= config.capacity(role).unwrap(),
    decreases steps.len(),
{
    if steps.len() == 0 {
        let empty = Seq::<ConnectionView>::empty();
        assert forall|r: Role| within_capacity(empty, config, r) by {
            lemma_filter_keeps_none(empty, matching(r, false));
        }
    } else {
        law_capacity_at_all_times(config, steps.drop_last());
        law_step_keeps_sound(run(config, steps.drop_last()), config, steps.last());
    }
    let records = run(config, steps).records;
    assert forall|role: Role| role.is_admin() implies tally(records, role, false) <= 1 by {
        assert(within_capacity(records, config, role));
    }
    assert forall|role: Role| role.is_player() implies tally(records, role, false)
        <= config.capacity(role).unwrap() by {
        assert(within_capacity(records, config, role));
    }
}

/// Two records that hold the same role count twice.
pub proof fn lemma_two_holders(records: Seq<ConnectionView>, role: Role, i: int, j: int)
    requires
        0 <= i < j < records.len(),
        records[i].role == role,
        !records[i].que,
        records[j].role == role,
        !records[j].que,
    ensures
        tally(records, role, false) >= 2,
{
    let p = matching(role, false);
    let head = records.subrange(0, j);
    lemma_filter_split(records, p, j);
    lemma_filter_split(head, p, i);
    assert(head[i] == records[i]);
}

/// Where no role has more holders than slots, an admin role has one holder:
/// two records that hold it are one record.
pub proof fn law_single_admin(
    records: Seq<ConnectionView>,
    config: &Config,
    role: Role,
    i: int,
    j: int,
)
    requires
        consistent(records, config),
        role.is_admin(),
        0 <= i < records.len(),
        0 <= j < records.len(),
        records[i].role == role,
        !records[i].que,
        records[j].role == role,
        !records[j].que,
    ensures
        i == j,
{
    assert(within_capacity(records, config, role));
    if i < j {
        lemma_two_holders(records, role, i, j);
    } else if j < i {
        lemma_two_holders(records, role, j, i);
    }
}

/// A request for a player role that is full is queued, unless the directory
/// is out of stamps; its entry carries a stamp that is greater than every
/// stamp in the directory before, and smaller than the one the next write
/// will get. So every connection that joins a queue stands behind all that
/// joined before.
pub proof fn law_excess_is_queued(
    records: Seq<ConnectionView>,
    next: u64,
    config: &Config,
    id: Seq<char>,
    role: Role,
    credential: Option<Seq<char>>,
    now: u64,
)
    requires
        well_formed(records, next),
        next < u64::MAX,
        role.is_player(),
        lookup(records, id) matches Some(c) && !(c.role == role && !c.que),
        tally(records, role, false) >= config.capacity(role).unwrap(),
    ensures
        ({
            let a = admission(records, next, config, id, role, credential, now);
            &&& a.result matches Ok(Decision::Queued(_))
            &&& lookup(a.records, id) == Some(waiter(id, role, next, deadline(config, role, now)))
            &&& forall|i: int| 0 <= i < records.len() ==> (#[trigger] records[i]).sequence < next
            &&& next < a.next
            &&& tally(a.records, role, false) <= tally(records, role, false)
        }),
{
    let fresh = waiter(id, role, next, deadline(config, role, now));
    lemma_put_well_formed(records, next, fresh);
    lemma_tally_without(records, id, role, false);
    lemma_tally_push(without(records, id), fresh, role, false);
}

/// A connection that only waited leaves without a trace: its record is
/// taken out, nobody moves up, and nothing is sent.
pub proof fn law_waiting_leaves_quietly(records: Seq<ConnectionView>, id: Seq<char>)
    requires
        lookup(records, id) matches Some(c) && c.que,
    ensures
        departed(records, id) == without(records, id),
        departure_notices(records, id) == Seq::<OutboundView>::empty(),
{
}

/// A disconnect that is reported twice is handled once: after the first
/// report the connection is not known, so the second changes nothing and
/// calls for no message.
pub proof fn law_disconnect_is_idempotent(records: Seq<ConnectionView>, next: u64, id: Seq<char>)
    requires
        well_formed(records, next),
    ensures
        absent(departed(records, id), id),
        departed(departed(records, id), id) == departed(records, id),
        departure_notices(departed(records, id), id) == Seq::<OutboundView>::empty(),
{
    match lookup(records, id) {
        Some(c) => {
            if vacates(c) {
                lemma_promoted_well_formed(records, next, c.role);
                lemma_without_well_formed(promoted(records, c.role), next, id);
            } else {
                lemma_without_well_formed(records, next, id);
            }
        },
        None => {},
    }
}

/// The connection that a step is about, if it is about one.
pub open spec fn subject(s: Step) -> Option<Seq<char>> {
    match s {
        Step::Connect { id } => Some(id),
        Step::Select { id, .. } => Some(id),
        Step::Disconnect { id } => Some(id),
        Step::Vacated { .. } => None,
    }
}

/// A step creates, rewrites and deletes the record of the connection it is
/// about, and no other. All that can happen to another connection is that
/// it moves up from a queue into the role it waited for.
pub proof fn law_bystanders_only_move_up(
    state: State,
    config: &Config,
    s: Step,
    other: Seq<char>,
)
    requires
        well_formed(state.records, state.next),
        subject(s) != Some(other),
    ensures
        untouched_or_risen(
            lookup(state.records, other),
            lookup(step(state, config, s).records, other),
        ),
{
    let records = state.records;
    let next = state.next;
    match s {
        Step::Connect { id } => {
            if next < u64::MAX {
                lemma_without_well_formed(records, next, id);
                lemma_lookup_without(records, id, other);
                lemma_lookup_push(without(records, id), newcomer(id, next), other);
            }
        },
        Step::Select { id, role, credential, now } => {
            lemma_without_well_formed(records, next, id);
            lemma_lookup_without(records, id, other);
            lemma_lookup_push(without(records, id), holder(id, role, next), other);
            lemma_lookup_push(
                without(records, id),
                waiter(id, role, next, deadline(config, role, now)),
                other,
            );
        },
        Step::Disconnect { id } => {
            match lookup(records, id) {
                Some(c) => {
                    if vacates(c) {
                        lemma_promoted_well_formed(records, next, c.role);
                        lemma_lookup_promoted(records, c.role, other);
                        lemma_lookup_without(promoted(records, c.role), id, other);
                    } else {
                        lemma_lookup_without(records, id, other);
                    }
                },
                None => {},
            }
        },
        Step::Vacated { role } => {
            lemma_lookup_promoted(records, role, other);
        },
    }
}

/// The directory after `n` promotions in a role's queue, one after the
/// other.
pub open spec fn promoted_times(records: Seq<ConnectionView>, role: Role, n: nat) -> Seq<
    ConnectionView,
>
    decreases n,
{
    if n == 0 {
        records
    } else {
        promoted(promoted_times(records, role, (n - 1) as nat), role)
    }
}

/// How many of `n` promotions in a row found somebody to promote.
pub open spec fn promotions(records: Seq<ConnectionView>, role: Role, n: nat) -> nat
    decreases n,
{
    if n == 0 {
        0
    } else {
        promotions(records, role, (n - 1) as nat) + (if front(
            promoted_times(records, role, (n - 1) as nat),
            role,
        ).is_some() {
            1nat
        } else {
            0nat
        })
    }
}

/// Of `n` promotions in a row for a role with `m` waiting connections, as
/// many succeed as there are connections to promote, `m` at most, and the
/// others change nothing: where `m < n`, exactly `m` succeed and the queue
/// is empty afterwards.
pub proof fn law_promotions_match_queue(
    records: Seq<ConnectionView>,
    next: u64,
    role: Role,
    n: nat,
)
    requires
        well_formed(records, next),
    ensures
        well_formed(promoted_times(records, role, n), next),
        promotions(records, role, n) == if n <= tally(records, role, true) {
            n
        } else {
            tally(records, role, true)
        },
        tally(promoted_times(records, role, n), role, true) == tally(records, role, true)
            - promotions(records, role, n),
        tally(promoted_times(records, role, n), role, false) == tally(records, role, false)
            + promotions(records, role, n),
    decreases n,
{
    if n > 0 {
        let k = (n - 1) as nat;
        let before = promoted_times(records, role, k);
        law_promotions_match_queue(records, next, role, k);
        lemma_promoted_well_formed(before, next, role);
        lemma_tally_promoted(before, role, role);
        lemma_empty_queue(before, role);
    }
}

/// No connection is promoted twice: of two promotions in a row the second
/// takes another connection than the first, one that joined the queue
/// later; and a connection that has been promoted no longer waits, so that
/// promoting it again changes nothing.
pub proof fn law_no_double_promotion(records: Seq<ConnectionView>, next: u64, role: Role)
    requires
        well_formed(records, next),
        front(records, role).is_some(),
    ensures
        ({
            let first = front(records, role).unwrap();
            let after = promoted(records, role);
            &&& lookup(after, first.id) matches Some(c) && !c.que
            &&& activated(after, first.id) == after
            &&& front(after, role) matches Some(second) ==> second.id != first.id
                && first.sequence < second.sequence
        }),
{
    let first = front(records, role).unwrap();
    let after = promoted(records, role);
    lemma_front_is_record(records, role);
    lemma_promoted_well_formed(records, next, role);
    let i = choose|i: int| 0 <= i < records.len() && records[i] == first;
    assert(after[i].id == first.id && !after[i].que);
    lemma_lookup(after, first.id, i);
    assert(activated(after, first.id) =~= after);
    if front(after, role).is_some() {
        let second = front(after, role).unwrap();
        lemma_front_is_record(after, role);
        let j = choose|j: int| 0 <= j < after.len() && after[j] == second;
        assert(records[j] == second);
        assert(i != j);
    }
}

/// Promotions change neither an id nor a stamp, and no promotion adds or
/// removes a record.
pub proof fn lemma_promotions_keep_entries(records: Seq<ConnectionView>, role: Role, n: nat)
    ensures
        promoted_times(records, role, n).len() == records.len(),
        forall|i: int|
            0 <= i < records.len() ==> (#[trigger] promoted_times(records, role, n)[i]).id
                == records[i].id && promoted_times(records, role, n)[i].sequence
                == records[i].sequence,
    decreases n,
{
    if n > 0 {
        let before = promoted_times(records, role, (n - 1) as nat);
        let after = promoted_times(records, role, n);
        lemma_promotions_keep_entries(records, role, (n - 1) as nat);
        assert(after.len() == before.len());
        assert forall|i: int| 0 <= i < records.len() implies (#[trigger] after[i]).id
            == records[i].id && after[i].sequence == records[i].sequence by {
            assert(after[i].id == before[i].id);
            assert(after[i].sequence == before[i].sequence);
        }
    }
}

/// Promotions serve a queue in the order of the stamps: of any two
/// promotions in a run that both found somebody, the later one took a
/// connection with a greater stamp and another id. So however many
/// promotions follow each other, none takes a connection that was taken
/// before.
pub proof fn law_promotions_in_queue_order(
    records: Seq<ConnectionView>,
    next: u64,
    role: Role,
    k: nat,
    j: nat,
)
    requires
        well_formed(records, next),
        k < j,
        front(promoted_times(records, role, j), role).is_some(),
    ensures
        front(promoted_times(records, role, k), role).is_some(),
        front(promoted_times(records, role, k), role).unwrap().sequence < front(
            promoted_times(records, role, j),
            role,
        ).unwrap().sequence,
        front(promoted_times(records, role, k), role).unwrap().id != front(
            promoted_times(records, role, j),
            role,
        ).unwrap().id,
    decreases j - k,
{
    let at_k = promoted_times(records, role, k);
    let at_j = promoted_times(records, role, j);
    let at_k1 = promoted_times(records, role, k + 1);
    law_promotions_match_queue(records, next, role, k);
    law_promotions_match_queue(records, next, role, j);
    if j > k + 1 {
        law_promotions_in_queue_order(records, next, role, k + 1, j);
    }
    assert(at_k1 == promoted(at_k, role));
    assert(front(at_k1, role).is_some());
    assert(front(at_k, role).is_some());
    law_no_double_promotion(at_k, next, role);
    let a = front(at_k, role).unwrap();
    let b = front(at_j, role).unwrap();
    assert(a.sequence < b.sequence);
    lemma_front_is_record(at_k, role);
    lemma_front_is_record(at_j, role);
    lemma_promotions_keep_entries(records, role, k);
    lemma_promotions_keep_entries(records, role, j);
    let ia = choose|i: int| 0 <= i < at_k.len() && at_k[i] == a;
    let ib = choose|i: int| 0 <= i < at_j.len() && at_j[i] == b;
    assert(at_k[ia].id == records[ia].id && at_k[ia].sequence == records[ia].sequence);
    assert(at_j[ib].id == records[ib].id && at_j[ib].sequence == records[ib].sequence);
    assert(ia != ib);
}

/// A connection that was promoted from the only place in a queue and goes
/// at once: its record is removed, and since nobody waits for its role the
/// search for a successor finds none and changes nothing.
pub proof fn law_promoted_then_gone(records: Seq<ConnectionView>, next: u64, role: Role)
    requires
        well_formed(records, next),
        role.is_player(),
        tally(records, role, true) == 1,
    ensures
        ({
            let risen = front(records, role).unwrap();
            let after = promoted(records, role);
            &&& front(records, role).is_some()
            &&& front(after, role).is_none()
            &&& successor(after, role).is_none()
            &&& departed(after, risen.id) == without(after, risen.id)
            &&& absent(departed(after, risen.id), risen.id)
        }),
{
    lemma_empty_queue(records, role);
    let risen = front(records, role).unwrap();
    let after = promoted(records, role);
    lemma_front_is_record(records, role);
    lemma_promoted_well_formed(records, next, role);
    lemma_tally_promoted(records, role, role);
    lemma_empty_queue(after, role);
    let i = choose|i: int| 0 <= i < records.len() && records[i] == risen;
    assert(after[i].id == risen.id && !after[i].que && after[i].role == role);
    lemma_lookup(after, risen.id, i);
    lemma_without_well_formed(after, next, risen.id);
}

} // verus!
