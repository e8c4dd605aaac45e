//! The connection directory, held in memory: the one place where the
//! broker's state lives, read and written through a few primitives.

use crate::error::BrokerError;
use crate::models::{Connection, ConnectionView, Role};
use crate::records::{
    absent, differs_from, earlier, following, front, holders, ids, lemma_first_holder, lemma_front,
    lemma_lookup, lemma_without, lemma_without_absent, loadable, lookup, matching, missing_from,
    removed, revised, settled, stamped, waits_before, well_formed, without, written,
};
use crate::seq_facts::{lemma_filter_keeps_all, lemma_filter_keeps_none, lemma_filter_push};
use vstd::prelude::*;

verus! {

pub open spec fn seen(found: Option<Connection>) -> Option<ConnectionView> {
    match found {
        Some(c) => Some(c@),
        None => None,
    }
}

pub open spec fn texts(items: Seq<String>) -> Seq<Seq<char>> {
    items.map_values(|s: String| s@)
}

pub open spec fn views(records: Seq<Connection>) -> Seq<ConnectionView> {
    records.map_values(|c: Connection| c@)
}

pub open spec fn expected_view(expected: Option<&Connection>) -> Option<ConnectionView> {
    match expected {
        Some(c) => Some(c@),
        None => None,
    }
}

/// Whether two records read the same.
pub fn same_record(a: &Connection, b: &Connection) -> (same: bool)
    ensures
        same == (a@ == b@),
{
    let deadline = match (a.clear_at, b.clear_at) {
        (Some(x), Some(y)) => x == y,
        (None, None) => true,
        _ => false,
    };
    let same = a.id.as_str().eq(b.id.as_str()) && a.role == b.role && a.que == b.que && a.sequence
        == b.sequence && deadline;
    proof {
        if a@ == b@ {
            assert(a@.id == b@.id);
        }
        if same {
            assert(a@.id =~= b@.id);
        }
    }
    same
}

/// The connection directory: every live connection's record, and the stamp
/// that the next write will carry.
pub struct Directory {
    records: Vec<Connection>,
    next_sequence: u64,
}

impl View for Directory {
    type V = Seq<ConnectionView>;

    closed spec fn view(&self) -> Seq<ConnectionView> {
        views(self.records@)
    }
}

impl Directory {
    /// The stamp that the next write will carry.
    pub closed spec fn next(&self) -> u64 {
        self.next_sequence
    }

    /// What every directory keeps: no id twice, the records in the order of
    /// their stamps, every stamp older than the next.
    pub open spec fn wf(&self) -> bool {
        well_formed(self@, self.next())
    }

    pub fn new() -> (dir: Directory)
        ensures
            dir.wf(),
            dir@ == Seq::<ConnectionView>::empty(),
            dir.next() == 0,
    {
        Directory { records: Vec::new(), next_sequence: 0 }
    }

    /// The directory that holds the given records, if they can be taken for
    /// one: they must be in the order of their stamps, and no two may share
    /// an id or a stamp.
    pub fn load(records: Vec<Connection>) -> (loaded: Option<Directory>)
        ensures
            match loaded {
                Some(dir) => {
                    &&& loadable(views(records@))
                    &&& dir.wf()
                    &&& dir@ == views(records@)
                    &&& dir.next() == following(views(records@))
                },
                None => !loadable(views(records@)),
            },
    {
        let ghost all = views(records@);
        let n = records.len();
        if n == 0 {
            return Some(Directory { records, next_sequence: 0 });
        }
        let mut i: usize = 1;
        while i < n
            invariant
                1 <= i <= n,
                n == records.len(),
                all == views(records@),
                forall|a: int, b: int|
                    0 <= a < b < i ==> (#[trigger] all[a]).sequence < (#[trigger] all[b]).sequence,
                forall|a: int, b: int| 0 <= a < b < i ==> (#[trigger] all[a]).id != (
                #[trigger] all[b]).id,
            decreases n - i,
        {
            if records[i - 1].sequence >= records[i].sequence {
                assert(all[i - 1].sequence >= all[i as int].sequence);
                return None;
            }
            let mut j: usize = 0;
            while j < i
                invariant
                    j <= i < n,
                    n == records.len(),
                    all == views(records@),
                    forall|a: int| 0 <= a < j ==> (#[trigger] all[a]).id != all[i as int].id,
                decreases i - j,
            {
                if records[j].id.as_str().eq(records[i].id.as_str()) {
                    assert(all[j as int].id == all[i as int].id);
                    return None;
                }
                j += 1;
            }
            i += 1;
        }
        let last = records[n - 1].sequence;
        if last == u64::MAX {
            assert(all.last().sequence == u64::MAX);
            return None;
        }
        Some(Directory { records, next_sequence: last + 1 })
    }

    /// Every record, in the order of the stamps.
    pub fn snapshot(&self) -> (all: Vec<Connection>)
        ensures
            views(all@) == self@,
    {
        let mut all: Vec<Connection> = Vec::new();
        let mut i: usize = 0;
        while i < self.records.len()
            invariant
                i <= self.records.len(),
                all@.len() == i,
                forall|j: int| 0 <= j < i ==> (#[trigger] all@[j])@ == self@[j],
            decreases self.records.len() - i,
        {
            all.push(self.records[i].clone());
            i += 1;
        }
        proof {
            assert(views(all@) =~= self@);
        }
        all
    }

    /// A copy of the directory.
    pub fn duplicate(&self) -> (copy: Directory)
        ensures
            copy@ == self@,
            copy.next() == self.next(),
            copy.wf() == self.wf(),
    {
        Directory { records: self.snapshot(), next_sequence: self.next_sequence }
    }

    /// What has to be written to bring an earlier state of the directory up
    /// to this one: the records that are new or have changed.
    pub fn written_since(&self, earlier: &Directory) -> (changed: Vec<Connection>)
        requires
            earlier.wf(),
        ensures
            views(changed@) == written(earlier@, self@),
    {
        let mut changed: Vec<Connection> = Vec::new();
        let mut i: usize = 0;
        proof {
            assert(self@.subrange(0, 0) =~= Seq::<ConnectionView>::empty());
            lemma_filter_keeps_all(Seq::<ConnectionView>::empty(), differs_from(earlier@));
            assert(views(changed@) =~= Seq::<ConnectionView>::empty());
        }
        while i < self.records.len()
            invariant
                earlier.wf(),
                i <= self.records.len(),
                views(changed@) == self@.subrange(0, i as int).filter(differs_from(earlier@)),
            decreases self.records.len() - i,
        {
            proof {
                lemma_filter_push(
                    self@.subrange(0, i as int),
                    differs_from(earlier@),
                    self@[i as int],
                );
                assert(self@.subrange(0, i as int).push(self@[i as int]) =~= self@.subrange(
                    0,
                    i + 1,
                ));
            }
            let same = match earlier.get(self.records[i].id.as_str()) {
                Some(old) => same_record(&old, &self.records[i]),
                None => false,
            };
            if !same {
                let copy = self.records[i].clone();
                proof {
                    assert(views(changed@.push(copy)) =~= views(changed@).push(copy@));
                }
                changed.push(copy);
            }
            i += 1;
        }
        proof {
            assert(self@.subrange(0, i as int) =~= self@);
        }
        changed
    }

    /// What has to be deleted to bring an earlier state of the directory up
    /// to this one: the ids that it had and this one has not.
    pub fn removed_since(&self, earlier: &Directory) -> (gone: Vec<String>)
        requires
            self.wf(),
        ensures
            texts(gone@) == removed(earlier@, self@),
    {
        let mut gone: Vec<String> = Vec::new();
        let mut i: usize = 0;
        let ghost mut kept: Seq<ConnectionView> = Seq::empty();
        proof {
            assert(earlier@.subrange(0, 0) =~= Seq::<ConnectionView>::empty());
            lemma_filter_keeps_all(Seq::<ConnectionView>::empty(), missing_from(self@));
        }
        while i < earlier.records.len()
            invariant
                self.wf(),
                i <= earlier.records.len(),
                kept == earlier@.subrange(0, i as int).filter(missing_from(self@)),
                gone@.len() == kept.len(),
                forall|j: int| 0 <= j < gone@.len() ==> (#[trigger] gone@[j])@ == kept[j].id,
            decreases earlier.records.len() - i,
        {
            proof {
                lemma_filter_push(
                    earlier@.subrange(0, i as int),
                    missing_from(self@),
                    earlier@[i as int],
                );
                assert(earlier@.subrange(0, i as int).push(earlier@[i as int])
                    =~= earlier@.subrange(0, i + 1));
            }
            if self.position(earlier.records[i].id.as_str()).is_none() {
                let id = earlier.records[i].id.clone();
                proof {
                    kept = kept.push(earlier@[i as int]);
                }
                gone.push(id);
            }
            i += 1;
        }
        proof {
            assert(earlier@.subrange(0, i as int) =~= earlier@);
            assert(texts(gone@) =~= ids(kept));
        }
        gone
    }

    /// The conditional write: the record is written, as `put` writes it, if
    /// the directory holds under its id exactly what the writer expects
    /// (`None`: nothing). If it holds anything else, nothing is written and
    /// nothing handed out.
    pub fn put_if_match(
        &mut self,
        record: Connection,
        expected: Option<&Connection>,
    ) -> (stored: Result<Option<Connection>, BrokerError>)
        requires
            old(self).wf(),
        ensures
            final(self).wf(),
            match stored {
                Ok(Some(c)) => {
                    &&& lookup(old(self)@, record@.id) == expected_view(expected)
                    &&& old(self).next() < u64::MAX
                    &&& final(self).next() == old(self).next() + 1
                    &&& c@ == stamped(record@, old(self).next())
                    &&& final(self)@ == without(old(self)@, record@.id).push(c@)
                },
                Ok(None) => {
                    &&& lookup(old(self)@, record@.id) != expected_view(expected)
                    &&& final(self)@ == old(self)@
                    &&& final(self).next() == old(self).next()
                },
                Err(e) => {
                    &&& lookup(old(self)@, record@.id) == expected_view(expected)
                    &&& e == BrokerError::StorageUnavailable
                    &&& old(self).next() == u64::MAX
                    &&& final(self)@ == old(self)@
                    &&& final(self).next() == old(self).next()
                },
            },
    {
        let fits = match (self.get(record.id.as_str()), expected) {
            (Some(current), Some(wanted)) => same_record(&current, wanted),
            (None, None) => true,
            _ => false,
        };
        if !fits {
            return Ok(None);
        }
        match self.put(record) {
            Ok(c) => Ok(Some(c)),
            Err(e) => Err(e),
        }
    }

    /// The stamp that the next write will carry.
    pub fn next_stamp(&self) -> (stamp: u64)
        ensures
            stamp == self.next(),
    {
        self.next_sequence
    }

    pub fn len(&self) -> (n: usize)
        ensures
            n == self@.len(),
    {
        self.records.len()
    }

    /// Where the record with this id stands.
    fn position(&self, id: &str) -> (at: Option<usize>)
        ensures
            match at {
                Some(i) => i < self@.len() && self@[i as int].id == id@,
                None => absent(self@, id@),
            },
    {
        let mut i: usize = 0;
        while i < self.records.len()
            invariant
                i <= self.records.len(),
                forall|j: int| 0 <= j < i ==> (#[trigger] self@[j]).id != id@,
            decreases self.records.len() - i,
        {
            if self.records[i].id.as_str().eq(id) {
                return Some(i);
            }
            i += 1;
        }
        None
    }

    /// The record of a connection.
    pub fn get(&self, id: &str) -> (found: Option<Connection>)
        requires
            self.wf(),
        ensures
            match found {
                Some(c) => lookup(self@, id@) == Some(c@),
                None => lookup(self@, id@).is_none(),
            },
    {
        match self.position(id) {
            Some(i) => {
                proof {
                    lemma_lookup(self@, id@, i as int);
                }
                Some(self.records[i].clone())
            },
            None => None,
        }
    }

    /// Writes a record, in place of the one with the same id if there is one.
    /// The record is stamped with the directory's next stamp and goes to the
    /// end; the stamp it came with is not kept. Fails, and writes nothing,
    /// when the stamps have run out.
    pub fn put(&mut self, record: Connection) -> (stored: Result<Connection, BrokerError>)
        requires
            old(self).wf(),
        ensures
            final(self).wf(),
            match stored {
                Ok(c) => {
                    &&& old(self).next() < u64::MAX
                    &&& final(self).next() == old(self).next() + 1
                    &&& c@ == stamped(record@, old(self).next())
                    &&& final(self)@ == without(old(self)@, record@.id).push(c@)
                },
                Err(e) => {
                    &&& e == BrokerError::StorageUnavailable
                    &&& old(self).next() == u64::MAX
                    &&& final(self)@ == old(self)@
                    &&& final(self).next() == old(self).next()
                },
            },
    {
        if self.next_sequence == u64::MAX {
            return Err(BrokerError::StorageUnavailable);
        }
        let stamp = self.next_sequence;
        self.next_sequence = stamp + 1;
        match self.position(record.id.as_str()) {
            Some(i) => {
                proof {
                    lemma_without(self@, record@.id, i as int);
                    assert(views(self.records@.remove(i as int)) =~= self@.remove(i as int));
                }
                self.records.remove(i);
            },
            None => {
                proof {
                    lemma_without_absent(self@, record@.id);
                }
            },
        }
        let entry = Connection {
            id: record.id,
            role: record.role,
            que: record.que,
            sequence: stamp,
            clear_at: record.clear_at,
        };
        let copy = entry.clone();
        proof {
            assert(views(self.records@.push(entry)) =~= self@.push(entry@));
        }
        self.records.push(entry);
        Ok(copy)
    }

    /// Removes the record of a connection, if there is one, and hands it out.
    pub fn delete_by_id(&mut self, id: &str) -> (removed: Option<Connection>)
        requires
            old(self).wf(),
        ensures
            final(self).wf(),
            final(self)@ == without(old(self)@, id@),
            final(self).next() == old(self).next(),
            match removed {
                Some(c) => lookup(old(self)@, id@) == Some(c@),
                None => lookup(old(self)@, id@).is_none(),
            },
    {
        match self.position(id) {
            Some(i) => {
                proof {
                    lemma_lookup(self@, id@, i as int);
                    lemma_without(self@, id@, i as int);
                    assert(views(self.records@.remove(i as int)) =~= self@.remove(i as int));
                }
                Some(self.records.remove(i))
            },
            None => {
                proof {
                    lemma_without_absent(self@, id@);
                }
                None
            },
        }
    }

    /// The guarded update: if the connection's record has the role and the
    /// waiting flag that the writer expects, its waiting flag and deadline are
    /// set anew and the new record is handed out; if not, nothing is written.
    pub fn conditional_update(
        &mut self,
        id: &str,
        role: Role,
        que_before: bool,
        que: bool,
        clear_at: Option<u64>,
    ) -> (written: Option<Connection>)
        requires
            old(self).wf(),
        ensures
            final(self).wf(),
            final(self)@ == revised(old(self)@, id@, role, que_before, que, clear_at),
            final(self).next() == old(self).next(),
            match written {
                Some(c) => {
                    &&& lookup(old(self)@, id@) matches Some(b)
                    &&& b.role == role
                    &&& b.que == que_before
                    &&& c@ == settled(b, que, clear_at)
                },
                None => {
                    &&& !(lookup(old(self)@, id@) matches Some(b) && b.role == role && b.que
                        == que_before)
                    &&& final(self)@ == old(self)@
                },
            },
    {
        match self.position(id) {
            Some(i) => {
                proof {
                    lemma_lookup(self@, id@, i as int);
                }
                if self.records[i].role == role && self.records[i].que == que_before {
                    let entry = Connection {
                        id: self.records[i].id.clone(),
                        role,
                        que,
                        sequence: self.records[i].sequence,
                        clear_at,
                    };
                    let copy = entry.clone();
                    proof {
                        assert(views(self.records@.update(i as int, entry)) =~= revised(
                            self@,
                            id@,
                            role,
                            que_before,
                            que,
                            clear_at,
                        ));
                    }
                    self.records.set(i, entry);
                    Some(copy)
                } else {
                    proof {
                        assert(self@ =~= revised(self@, id@, role, que_before, que, clear_at));
                    }
                    None
                }
            },
            None => {
                proof {
                    assert(self@ =~= revised(self@, id@, role, que_before, que, clear_at));
                }
                None
            },
        }
    }

    /// The records with a role that wait, or those that do not, in the order
    /// of their stamps.
    pub fn query_by_role(&self, role: Role, que: bool) -> (found: Vec<Connection>)
        ensures
            views(found@) == self@.filter(matching(role, que)),
    {
        let mut found: Vec<Connection> = Vec::new();
        let mut i: usize = 0;
        proof {
            assert(self@.subrange(0, 0) =~= Seq::<ConnectionView>::empty());
            lemma_filter_keeps_all(Seq::<ConnectionView>::empty(), matching(role, que));
            assert(views(found@) =~= Seq::<ConnectionView>::empty());
        }
        while i < self.records.len()
            invariant
                i <= self.records.len(),
                views(found@) == self@.subrange(0, i as int).filter(matching(role, que)),
            decreases self.records.len() - i,
        {
            proof {
                lemma_filter_push(
                    self@.subrange(0, i as int),
                    matching(role, que),
                    self@[i as int],
                );
                assert(self@.subrange(0, i as int).push(self@[i as int]) =~= self@.subrange(
                    0,
                    i + 1,
                ));
            }
            if self.records[i].role == role && self.records[i].que == que {
                let copy = self.records[i].clone();
                proof {
                    assert(views(found@.push(copy)) =~= views(found@).push(copy@));
                }
                found.push(copy);
            }
            i += 1;
        }
        proof {
            assert(self@.subrange(0, i as int) =~= self@);
        }
        found
    }

    /// How many records with a role wait, or do not.
    pub fn count(&self, role: Role, que: bool) -> (n: usize)
        ensures
            n == self@.filter(matching(role, que)).len(),
    {
        let mut n: usize = 0;
        let mut i: usize = 0;
        proof {
            assert(self@.subrange(0, 0) =~= Seq::<ConnectionView>::empty());
            lemma_filter_keeps_all(Seq::<ConnectionView>::empty(), matching(role, que));
        }
        while i < self.records.len()
            invariant
                i <= self.records.len(),
                n <= i,
                n == self@.subrange(0, i as int).filter(matching(role, que)).len(),
            decreases self.records.len() - i,
        {
            proof {
                lemma_filter_push(
                    self@.subrange(0, i as int),
                    matching(role, que),
                    self@[i as int],
                );
                assert(self@.subrange(0, i as int).push(self@[i as int]) =~= self@.subrange(
                    0,
                    i + 1,
                ));
            }
            if self.records[i].role == role && self.records[i].que == que {
                n += 1;
            }
            i += 1;
        }
        proof {
            assert(self@.subrange(0, i as int) =~= self@);
        }
        n
    }

    /// How many connections stood in a role's queue before the stamp was
    /// issued: the place in the queue of the entry that carries it.
    pub fn rank(&self, role: Role, sequence: u64) -> (n: usize)
        ensures
            n == earlier(self@, role, sequence).len(),
    {
        let mut n: usize = 0;
        let mut i: usize = 0;
        proof {
            assert(self@.subrange(0, 0) =~= Seq::<ConnectionView>::empty());
            lemma_filter_keeps_all(Seq::<ConnectionView>::empty(), waits_before(role, sequence));
        }
        while i < self.records.len()
            invariant
                i <= self.records.len(),
                n <= i,
                n == self@.subrange(0, i as int).filter(waits_before(role, sequence)).len(),
            decreases self.records.len() - i,
        {
            proof {
                lemma_filter_push(
                    self@.subrange(0, i as int),
                    waits_before(role, sequence),
                    self@[i as int],
                );
                assert(self@.subrange(0, i as int).push(self@[i as int]) =~= self@.subrange(
                    0,
                    i + 1,
                ));
            }
            if self.records[i].role == role && self.records[i].que && self.records[i].sequence
                < sequence {
                n += 1;
            }
            i += 1;
        }
        proof {
            assert(self@.subrange(0, i as int) =~= self@);
        }
        n
    }

    /// The connection that has held a role longest, of those that hold it.
    pub fn first_holder(&self, role: Role) -> (found: Option<Connection>)
        ensures
            match found {
                Some(c) => holders(self@, role).len() > 0 && holders(self@, role)[0] == c@,
                None => holders(self@, role).len() == 0,
            },
    {
        let mut i: usize = 0;
        while i < self.records.len()
            invariant
                i <= self.records.len(),
                forall|j: int|
                    0 <= j < i ==> !((#[trigger] self@[j]).role == role && !self@[j].que),
            decreases self.records.len() - i,
        {
            if self.records[i].role == role && !self.records[i].que {
                proof {
                    lemma_first_holder(self@, role, i as int);
                }
                return Some(self.records[i].clone());
            }
            i += 1;
        }
        proof {
            lemma_filter_keeps_none(self@, matching(role, false));
        }
        None
    }

    /// The connection that has waited longest for a role.
    pub fn first_waiting(&self, role: Role) -> (found: Option<Connection>)
        requires
            self.wf(),
        ensures
            match found {
                Some(c) => front(self@, role) == Some(c@),
                None => front(self@, role).is_none(),
            },
    {
        let mut i: usize = 0;
        while i < self.records.len()
            invariant
                self.wf(),
                i <= self.records.len(),
                forall|j: int|
                    0 <= j < i ==> !((#[trigger] self@[j]).role == role && self@[j].que),
            decreases self.records.len() - i,
        {
            if self.records[i].role == role && self.records[i].que {
                proof {
                    lemma_front(self@, role, i as int);
                }
                return Some(self.records[i].clone());
            }
            i += 1;
        }
        None
    }
}

} // verus!
