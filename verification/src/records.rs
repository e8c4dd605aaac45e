//! The directory's records as contracts read them, and what is true of them.

use crate::models::{ConnectionView, Role};
use crate::seq_facts::{lemma_filter_keeps_all, lemma_filter_keeps_none, lemma_filter_split};
use vstd::prelude::*;

verus! {

/// No two records share an id.
pub open spec fn unique_ids(records: Seq<ConnectionView>) -> bool {
    forall|i: int, j: int|
        0 <= i < j < records.len() ==> (#[trigger] records[i]).id != (#[trigger] records[j]).id
}

/// The records stand in the order of their stamps, each stamp used once.
pub open spec fn ascending(records: Seq<ConnectionView>) -> bool {
    forall|i: int, j: int|
        0 <= i < j < records.len() ==> (#[trigger] records[i]).sequence < (
        #[trigger] records[j]).sequence
}

/// Every stamp in use is older than the next one to be issued.
pub open spec fn stamped_below(records: Seq<ConnectionView>, next: u64) -> bool {
    forall|i: int| 0 <= i < records.len() ==> (#[trigger] records[i]).sequence < next
}

/// What holds of a directory at all times.
pub open spec fn well_formed(records: Seq<ConnectionView>, next: u64) -> bool {
    &&& unique_ids(records)
    &&& ascending(records)
    &&& stamped_below(records, next)
}

/// No record carries this id.
pub open spec fn absent(records: Seq<ConnectionView>, id: Seq<char>) -> bool {
    forall|i: int| 0 <= i < records.len() ==> (#[trigger] records[i]).id != id
}

/// The record with this id, if there is one.
pub open spec fn lookup(records: Seq<ConnectionView>, id: Seq<char>) -> Option<ConnectionView> {
    if absent(records, id) {
        None
    } else {
        Some(records[choose|i: int| 0 <= i < records.len() && (#[trigger] records[i]).id == id])
    }
}

pub open spec fn other_than(id: Seq<char>) -> spec_fn(ConnectionView) -> bool {
    |c: ConnectionView| c.id != id
}

pub open spec fn matching(role: Role, que: bool) -> spec_fn(ConnectionView) -> bool {
    |c: ConnectionView| c.role == role && c.que == que
}

/// The records but the one with this id.
pub open spec fn without(records: Seq<ConnectionView>, id: Seq<char>) -> Seq<ConnectionView> {
    records.filter(other_than(id))
}

/// The connections that occupy a slot of the role, oldest write first.
pub open spec fn holders(records: Seq<ConnectionView>, role: Role) -> Seq<ConnectionView> {
    records.filter(matching(role, false))
}

/// `c` waits for the role, and nobody has waited for it longer.
pub open spec fn is_front(records: Seq<ConnectionView>, role: Role, c: ConnectionView) -> bool {
    &&& records.contains(c)
    &&& c.role == role
    &&& c.que
    &&& forall|i: int|
        0 <= i < records.len() && (#[trigger] records[i]).role == role && records[i].que
            ==> c.sequence <= records[i].sequence
}

/// Nobody waits for the role.
pub open spec fn nobody_waits(records: Seq<ConnectionView>, role: Role) -> bool {
    forall|i: int|
        0 <= i < records.len() ==> !((#[trigger] records[i]).role == role && records[i].que)
}

/// The connection that has waited longest for the role: of those in the
/// queue, the one with the least stamp.
pub open spec fn front(records: Seq<ConnectionView>, role: Role) -> Option<ConnectionView> {
    if nobody_waits(records, role) {
        None
    } else {
        Some(choose|c: ConnectionView| is_front(records, role, c))
    }
}

/// The record with another stamp.
pub open spec fn stamped(c: ConnectionView, sequence: u64) -> ConnectionView {
    ConnectionView { sequence, ..c }
}

/// The record with its waiting flag and its deadline set anew.
pub open spec fn settled(c: ConnectionView, que: bool, clear_at: Option<u64>) -> ConnectionView {
    ConnectionView { que, clear_at, ..c }
}

/// The records after a guarded update: the record with this id is settled
/// anew if it has the role and the waiting flag that the writer expects, and
/// nothing changes if it has not.
pub open spec fn revised(
    records: Seq<ConnectionView>,
    id: Seq<char>,
    role: Role,
    que_before: bool,
    que: bool,
    clear_at: Option<u64>,
) -> Seq<ConnectionView> {
    records.map_values(
        |c: ConnectionView|
            if c.id == id && c.role == role && c.que == que_before {
                settled(c, que, clear_at)
            } else {
                c
            },
    )
}

pub open spec fn waits_before(role: Role, sequence: u64) -> spec_fn(ConnectionView) -> bool {
    |c: ConnectionView| c.role == role && c.que && c.sequence < sequence
}

/// The queue entries of a role that are older than a stamp.
pub open spec fn earlier(records: Seq<ConnectionView>, role: Role, sequence: u64) -> Seq<
    ConnectionView,
> {
    records.filter(waits_before(role, sequence))
}

/// The record as a promotion leaves it: no longer waiting, with no deadline.
pub open spec fn active(c: ConnectionView) -> ConnectionView {
    settled(c, false, None)
}

/// The records after the connection with this id has been promoted, which
/// changes nothing unless it waits.
pub open spec fn activated(records: Seq<ConnectionView>, id: Seq<char>) -> Seq<ConnectionView> {
    records.map_values(
        |c: ConnectionView|
            if c.id == id && c.que {
                active(c)
            } else {
                c
            },
    )
}

/// The stamp that follows the last of the records.
pub open spec fn following(records: Seq<ConnectionView>) -> u64 {
    if records.len() == 0 {
        0
    } else {
        (records.last().sequence + 1) as u64
    }
}

/// Records that can be taken for a directory as they stand: no id twice, in
/// the order of their stamps, with a stamp left to follow the last.
pub open spec fn loadable(records: Seq<ConnectionView>) -> bool {
    &&& unique_ids(records)
    &&& ascending(records)
    &&& records.len() > 0 ==> records.last().sequence < u64::MAX
}

/// The ids of some records, in their order.
pub open spec fn ids(records: Seq<ConnectionView>) -> Seq<Seq<char>> {
    records.map_values(|c: ConnectionView| c.id)
}

pub open spec fn differs_from(earlier: Seq<ConnectionView>) -> spec_fn(ConnectionView) -> bool {
    |c: ConnectionView| lookup(earlier, c.id) != Some(c)
}

pub open spec fn missing_from(later: Seq<ConnectionView>) -> spec_fn(ConnectionView) -> bool {
    |c: ConnectionView| absent(later, c.id)
}

/// The records that are new or have changed since an earlier state of the
/// directory, in the order of their stamps.
pub open spec fn written(earlier: Seq<ConnectionView>, later: Seq<ConnectionView>) -> Seq<
    ConnectionView,
> {
    later.filter(differs_from(earlier))
}

/// The ids of the records that an earlier state of the directory had and a
/// later one has not.
pub open spec fn removed(earlier: Seq<ConnectionView>, later: Seq<ConnectionView>) -> Seq<
    Seq<char>,
> {
    ids(earlier.filter(missing_from(later)))
}

/// The one record with a given id is the one that `lookup` finds.
pub proof fn lemma_lookup(records: Seq<ConnectionView>, id: Seq<char>, i: int)
    requires
        unique_ids(records),
        0 <= i < records.len(),
        records[i].id == id,
    ensures
        lookup(records, id) == Some(records[i]),
{
    let j = choose|j: int| 0 <= j < records.len() && (#[trigger] records[j]).id == id;
    assert(i == j);
}

/// Without the one record that has the id, the others are all that is left.
pub proof fn lemma_without(records: Seq<ConnectionView>, id: Seq<char>, i: int)
    requires
        unique_ids(records),
        0 <= i < records.len(),
        records[i].id == id,
    ensures
        without(records, id) == records.remove(i),
{
    let p = other_than(id);
    let before = records.subrange(0, i);
    let after = records.subrange(i + 1, records.len() as int);
    lemma_filter_split(records, p, i);
    assert forall|k: int| 0 <= k < before.len() implies p(#[trigger] before[k]) by {
        assert(before[k] == records[k]);
    }
    assert forall|k: int| 0 <= k < after.len() implies p(#[trigger] after[k]) by {
        assert(after[k] == records[k + i + 1]);
    }
    lemma_filter_keeps_all(before, p);
    lemma_filter_keeps_all(after, p);
    assert(records.remove(i) =~= before + after);
    assert(before + Seq::<ConnectionView>::empty() + after =~= before + after);
}

/// Where no record has the id, leaving it out changes nothing.
pub proof fn lemma_without_absent(records: Seq<ConnectionView>, id: Seq<char>)
    requires
        absent(records, id),
    ensures
        without(records, id) == records,
{
    lemma_filter_keeps_all(records, other_than(id));
}

/// Where the records stand in the order of their stamps, the first in
/// storage that waits for a role is the front of that role's queue.
pub proof fn lemma_front(records: Seq<ConnectionView>, role: Role, i: int)
    requires
        ascending(records),
        0 <= i < records.len(),
        records[i].role == role,
        records[i].que,
        forall|j: int| 0 <= j < i ==> !((#[trigger] records[j]).role == role && records[j].que),
    ensures
        front(records, role) == Some(records[i]),
        is_front(records, role, records[i]),
{
    assert(is_front(records, role, records[i]));
    let c = choose|c: ConnectionView| is_front(records, role, c);
    let k = choose|k: int| 0 <= k < records.len() && records[k] == c;
    assert(records[k].sequence <= records[i].sequence);
    assert(records[i].sequence <= c.sequence);
    assert(k == i);
}

/// The front of a queue is one of the records, waits for the role, and is
/// the record that `lookup` finds under its id.
pub proof fn lemma_front_is_record(records: Seq<ConnectionView>, role: Role)
    requires
        unique_ids(records),
        front(records, role).is_some(),
    ensures
        is_front(records, role, front(records, role).unwrap()),
        lookup(records, front(records, role).unwrap().id) == front(records, role),
{
    let i = choose|i: int|
        0 <= i < records.len() && (#[trigger] records[i]).role == role && records[i].que;
    let least = least_waiting(records, role, records.len() as int);
    assert(is_front(records, role, least)) by {
        lemma_least_waiting(records, role, records.len() as int, i);
    }
    let c = front(records, role).unwrap();
    assert(is_front(records, role, c));
    let k = choose|k: int| 0 <= k < records.len() && records[k] == c;
    lemma_lookup(records, c.id, k);
}

/// Of the first `n` records, the one that waits for the role with the least
/// stamp; any record where none of them waits.
spec fn least_waiting(records: Seq<ConnectionView>, role: Role, n: int) -> ConnectionView
    decreases n,
{
    if n <= 0 {
        arbitrary()
    } else {
        let c = records[n - 1];
        let rest = least_waiting(records, role, n - 1);
        let none_before = forall|j: int|
            0 <= j < n - 1 ==> !((#[trigger] records[j]).role == role && records[j].que);
        if c.role == role && c.que && (none_before || c.sequence <= rest.sequence) {
            c
        } else {
            rest
        }
    }
}

proof fn lemma_least_waiting(records: Seq<ConnectionView>, role: Role, n: int, i: int)
    requires
        0 <= i < n <= records.len(),
        records[i].role == role,
        records[i].que,
    ensures
        ({
            let least = least_waiting(records, role, n);
            &&& records.contains(least)
            &&& least.role == role
            &&& least.que
            &&& forall|j: int|
                0 <= j < n && (#[trigger] records[j]).role == role && records[j].que
                    ==> least.sequence <= records[j].sequence
        }),
    decreases n,
{
    let c = records[n - 1];
    let none_before = forall|j: int|
        0 <= j < n - 1 ==> !((#[trigger] records[j]).role == role && records[j].que);
    if none_before {
        assert(i == n - 1);
        assert(records.contains(c));
    } else {
        let k = choose|k: int|
            0 <= k < n - 1 && (#[trigger] records[k]).role == role && records[k].que;
        lemma_least_waiting(records, role, n - 1, k);
        assert(records.contains(c));
    }
}

/// The first record in storage that holds a role is the first of the role's
/// holders.
pub proof fn lemma_first_holder(records: Seq<ConnectionView>, role: Role, i: int)
    requires
        0 <= i < records.len(),
        records[i].role == role,
        !records[i].que,
        forall|j: int| 0 <= j < i ==> !((#[trigger] records[j]).role == role && !records[j].que),
    ensures
        holders(records, role).len() > 0,
        holders(records, role)[0] == records[i],
{
    let p = matching(role, false);
    let before = records.subrange(0, i);
    lemma_filter_split(records, p, i);
    assert forall|k: int| 0 <= k < before.len() implies !p(#[trigger] before[k]) by {
        assert(before[k] == records[k]);
    }
    lemma_filter_keeps_none(before, p);
}

/// A guarded update touches the one record with the id, and only if it fits.
pub proof fn lemma_revised(
    records: Seq<ConnectionView>,
    id: Seq<char>,
    role: Role,
    que_before: bool,
    que: bool,
    clear_at: Option<u64>,
)
    requires
        unique_ids(records),
    ensures
        match lookup(records, id) {
            Some(b) => if b.role == role && b.que == que_before {
                exists|i: int|
                    0 <= i < records.len() && records[i] == b && revised(
                        records,
                        id,
                        role,
                        que_before,
                        que,
                        clear_at,
                    ) == records.update(i, settled(b, que, clear_at))
            } else {
                revised(records, id, role, que_before, que, clear_at) == records
            },
            None => revised(records, id, role, que_before, que, clear_at) == records,
        },
{
    let after = revised(records, id, role, que_before, que, clear_at);
    if absent(records, id) {
        assert(after =~= records);
    } else {
        let i = choose|i: int| 0 <= i < records.len() && (#[trigger] records[i]).id == id;
        let b = records[i];
        if b.role == role && b.que == que_before {
            assert(after =~= records.update(i, settled(b, que, clear_at)));
        } else {
            assert(after =~= records);
        }
    }
}

/// A promotion is the guarded update that ends a wait: it touches the record
/// with the id, and only if that record waits.
pub proof fn lemma_activated(records: Seq<ConnectionView>, id: Seq<char>)
    requires
        unique_ids(records),
    ensures
        match lookup(records, id) {
            Some(c) => activated(records, id) == revised(records, id, c.role, true, false, None),
            None => activated(records, id) == records,
        },
{
    match lookup(records, id) {
        Some(c) => {
            assert forall|i: int| 0 <= i < records.len() && (#[trigger] records[i]).id
                == id implies records[i] == c by {
                lemma_lookup(records, id, i);
            }
            assert(activated(records, id) =~= revised(records, id, c.role, true, false, None));
        },
        None => {
            assert(activated(records, id) =~= records);
        },
    }
}

/// Taking a record out leaves a well-formed directory well formed, and
/// without a record of that id.
pub proof fn lemma_without_well_formed(records: Seq<ConnectionView>, next: u64, id: Seq<char>)
    requires
        well_formed(records, next),
    ensures
        well_formed(without(records, id), next),
        absent(without(records, id), id),
{
    if absent(records, id) {
        lemma_without_absent(records, id);
    } else {
        let i = choose|i: int| 0 <= i < records.len() && (#[trigger] records[i]).id == id;
        lemma_without(records, id, i);
    }
}

/// A write with the next stamp leaves a well-formed directory well formed.
pub proof fn lemma_put_well_formed(records: Seq<ConnectionView>, next: u64, c: ConnectionView)
    requires
        well_formed(records, next),
        next < u64::MAX,
        c.sequence == next,
    ensures
        well_formed(without(records, c.id).push(c), (next + 1) as u64),
        lookup(without(records, c.id).push(c), c.id) == Some(c),
{
    lemma_without_well_formed(records, next, c.id);
    let after = without(records, c.id).push(c);
    lemma_lookup(after, c.id, after.len() - 1);
}

/// A guarded update leaves a well-formed directory well formed: it changes
/// neither an id nor a stamp.
pub proof fn lemma_revised_well_formed(
    records: Seq<ConnectionView>,
    next: u64,
    id: Seq<char>,
    role: Role,
    que_before: bool,
    que: bool,
    clear_at: Option<u64>,
)
    requires
        well_formed(records, next),
    ensures
        well_formed(revised(records, id, role, que_before, que, clear_at), next),
{
    let after = revised(records, id, role, que_before, que, clear_at);
    assert forall|i: int| 0 <= i < after.len() implies (#[trigger] after[i]).id == records[i].id
        && after[i].sequence == records[i].sequence by {}
    assert forall|i: int, j: int| 0 <= i < j < after.len() implies (#[trigger] after[i]).id != (
    #[trigger] after[j]).id by {
        assert(after[i].id == records[i].id);
        assert(after[j].id == records[j].id);
    }
    assert forall|i: int, j: int| 0 <= i < j < after.len() implies (
    #[trigger] after[i]).sequence < (#[trigger] after[j]).sequence by {
        assert(after[i].sequence == records[i].sequence);
        assert(after[j].sequence == records[j].sequence);
    }
    assert forall|i: int| 0 <= i < after.len() implies (#[trigger] after[i]).sequence < next by {
        assert(after[i].sequence == records[i].sequence);
    }
}

/// Taking a record out leaves every other record where `lookup` finds it.
pub proof fn lemma_lookup_without(records: Seq<ConnectionView>, id: Seq<char>, other: Seq<char>)
    requires
        unique_ids(records),
        other != id,
    ensures
        lookup(without(records, id), other) == lookup(records, other),
{
    if absent(records, id) {
        lemma_without_absent(records, id);
    } else {
        let i = choose|i: int| 0 <= i < records.len() && (#[trigger] records[i]).id == id;
        lemma_without(records, id, i);
        let rest = records.remove(i);
        if absent(records, other) {
            assert forall|k: int| 0 <= k < rest.len() implies (#[trigger] rest[k]).id != other by {
                if k < i {
                    assert(rest[k] == records[k]);
                } else {
                    assert(rest[k] == records[k + 1]);
                }
            }
        } else {
            let k = choose|k: int| 0 <= k < records.len() && (#[trigger] records[k]).id == other;
            lemma_lookup(records, other, k);
            assert forall|a: int, b: int| 0 <= a < b < rest.len() implies (#[trigger] rest[a]).id
                != (#[trigger] rest[b]).id by {
                assert(rest[a] == records[if a < i { a } else { a + 1 }]);
                assert(rest[b] == records[if b < i { b } else { b + 1 }]);
            }
            if k < i {
                assert(rest[k] == records[k]);
                lemma_lookup(rest, other, k);
            } else {
                assert(rest[k - 1] == records[k]);
                lemma_lookup(rest, other, k - 1);
            }
        }
    }
}

/// A record added at the end leaves every other record where `lookup` finds
/// it.
pub proof fn lemma_lookup_push(records: Seq<ConnectionView>, c: ConnectionView, other: Seq<char>)
    requires
        unique_ids(records),
        absent(records, c.id),
        other != c.id,
    ensures
        lookup(records.push(c), other) == lookup(records, other),
{
    let after = records.push(c);
    if absent(records, other) {
        assert forall|k: int| 0 <= k < after.len() implies (#[trigger] after[k]).id != other by {
            if k < records.len() {
                assert(after[k] == records[k]);
            }
        }
    } else {
        let k = choose|k: int| 0 <= k < records.len() && (#[trigger] records[k]).id == other;
        lemma_lookup(records, other, k);
        assert forall|a: int, b: int| 0 <= a < b < after.len() implies (#[trigger] after[a]).id
            != (#[trigger] after[b]).id by {
            if b < records.len() {
                assert(after[a] == records[a]);
                assert(after[b] == records[b]);
            } else {
                assert(after[a] == records[a]);
            }
        }
        assert(after[k] == records[k]);
        lemma_lookup(after, other, k);
    }
}

/// A promotion changes the record of the connection it promotes, if that one
/// waits, and no other.
pub proof fn lemma_lookup_activated(records: Seq<ConnectionView>, id: Seq<char>, other: Seq<char>)
    requires
        unique_ids(records),
    ensures
        lookup(activated(records, id), other) == match lookup(records, other) {
            Some(b) => if other == id && b.que {
                Some(active(b))
            } else {
                Some(b)
            },
            None => None,
        },
{
    let after = activated(records, id);
    if absent(records, other) {
        assert forall|k: int| 0 <= k < after.len() implies (#[trigger] after[k]).id != other by {
            assert(after[k].id == records[k].id);
        }
    } else {
        let k = choose|k: int| 0 <= k < records.len() && (#[trigger] records[k]).id == other;
        lemma_lookup(records, other, k);
        assert forall|a: int, b: int| 0 <= a < b < after.len() implies (#[trigger] after[a]).id
            != (#[trigger] after[b]).id by {
            assert(after[a].id == records[a].id);
            assert(after[b].id == records[b].id);
        }
        lemma_lookup(after, other, k);
    }
}

} // verus!
