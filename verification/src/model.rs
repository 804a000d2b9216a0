//! The mapping from applications to cache slots that is kept between runs.
//!
//! Each application that has an icon source has one entry: the source, and
//! the number of the cache slot that holds the rendered icon, if there is
//! one. A slot number names the file `<number>.png` in the cache directory.

use crate::apps::AppId;
use crate::idset::{among, lemma_among_step, IdSet};
use vstd::prelude::*;

verus! {

/// What is kept of one application.
#[derive(PartialEq, Eq, Debug)]
pub struct IconEntryModel {
    pub source_location: String,
    pub export_id: Option<usize>,
}

/// The mathematical content of an `IconEntryModel`.
pub struct IconEntryView {
    pub source_location: Seq<char>,
    pub export_id: Option<usize>,
}

impl View for IconEntryModel {
    type V = IconEntryView;

    open spec fn view(&self) -> IconEntryView {
        IconEntryView { source_location: self.source_location@, export_id: self.export_id }
    }
}

impl Clone for IconEntryModel {
    fn clone(&self) -> (r: Self)
        ensures
            r == *self,
    {
        IconEntryModel { source_location: self.source_location.clone(), export_id: self.export_id }
    }
}

/// The entries by application, in the order in which they came in. No
/// application has two entries (`wf`).
#[derive(Debug)]
pub struct IconsModel {
    pub values: Vec<(AppId, IconEntryModel)>,
}

/// The mapping after the first `n` of the entries have been taken in, one
/// after the other.
pub open spec fn recorded(entries: Seq<(AppId, IconEntryModel)>, n: nat) -> Map<
    Seq<char>,
    IconEntryView,
>
    decreases n,
{
    if n == 0 || n > entries.len() {
        Map::empty()
    } else {
        recorded(entries, (n - 1) as nat).insert(entries[n - 1].0@, entries[n - 1].1@)
    }
}

/// No two records hold the same slot.
pub open spec fn slots_distinct(m: Map<Seq<char>, IconEntryView>) -> bool {
    forall|a: Seq<char>, b: Seq<char>|
        m.dom().contains(a) && m.dom().contains(b) && a != b && (#[trigger] m[a]).export_id is Some
            ==> m[a].export_id != (#[trigger] m[b]).export_id
}

/// Some entry of the mapping holds the slot `id`.
pub open spec fn id_in_use(m: Map<Seq<char>, IconEntryView>, id: usize) -> bool {
    exists|k: Seq<char>| m.dom().contains(k) && (#[trigger] m[k]).export_id == Some(id)
}

/// The slot `id` is the lowest that no entry holds.
pub open spec fn is_free_id(m: Map<Seq<char>, IconEntryView>, id: usize) -> bool {
    &&& !id_in_use(m, id)
    &&& forall|j: usize| j < id ==> id_in_use(m, j)
}

/// The slot number occurs in the list.
pub open spec fn lists(slots: Seq<usize>, slot: usize) -> bool {
    exists|i: int| 0 <= i < slots.len() && #[trigger] slots[i] == slot
}

/// The slot is held by the record of an identity that is not among those
/// seen.
pub open spec fn is_unseen_slot(m: Map<Seq<char>, IconEntryView>, seen: Set<Seq<char>>, slot: usize) -> bool {
    exists|k: Seq<char>| m.dom().contains(k) && !seen.contains(k) && (#[trigger] m[k]).export_id == Some(slot)
}

impl IconsModel {
    /// The application of the entry at position `i`.
    pub open spec fn key(&self, i: int) -> Seq<char> {
        self.values@[i].0@
    }

    /// No application has two entries.
    pub open spec fn wf(&self) -> bool {
        forall|i: int, j: int|
            0 <= i < j < self.values@.len() ==> #[trigger] self.key(i) != #[trigger] self.key(j)
    }

    /// The application `key` has an entry.
    pub open spec fn has(&self, key: Seq<char>) -> bool {
        exists|i: int| 0 <= i < self.values@.len() && #[trigger] self.key(i) == key
    }

    /// The position of the entry of the application `key`.
    pub open spec fn index_of(&self, key: Seq<char>) -> int {
        choose|i: int| 0 <= i < self.values@.len() && #[trigger] self.key(i) == key
    }

    /// The entry at position `i` is what the mapping holds for its
    /// application.
    pub proof fn lemma_entry(&self, i: int)
        requires
            self.wf(),
            0 <= i < self.values@.len(),
        ensures
            self@.dom().contains(self.key(i)),
            self@[self.key(i)] == self.values@[i].1@,
            self.index_of(self.key(i)) == i,
    {
        let c = self.index_of(self.key(i));
        assert(self.has(self.key(i)));
        if c < i {
            assert(self.key(c) != self.key(i));
        } else if i < c {
            assert(self.key(i) != self.key(c));
        }
    }

    /// What the mapping holds for an application is an entry of it.
    pub proof fn lemma_index(&self, key: Seq<char>)
        requires
            self@.dom().contains(key),
        ensures
            0 <= self.index_of(key) < self.values@.len(),
            self.key(self.index_of(key)) == key,
            self@[key] == self.values@[self.index_of(key)].1@,
    {
    }

    /// The empty mapping.
    pub fn new() -> (r: IconsModel)
        ensures
            r.wf(),
            r@ == Map::<Seq<char>, IconEntryView>::empty(),
    {
        let r = IconsModel { values: Vec::new() };
        assert(r@ =~= Map::<Seq<char>, IconEntryView>::empty());
        r
    }

    /// The number of entries.
    pub fn len(&self) -> (r: usize)
        ensures
            r == self.values@.len(),
    {
        self.values.len()
    }

    /// The position of the entry of an application.
    pub fn position(&self, id: &AppId) -> (r: Option<usize>)
        ensures
            match r {
                Some(i) => i < self.values@.len() && self.key(i as int) == id@,
                None => !self.has(id@),
            },
    {
        let mut i: usize = 0;
        while i < self.values.len()
            invariant
                i <= self.values.len(),
                forall|j: int| 0 <= j < i ==> #[trigger] self.key(j) != id@,
            decreases self.values.len() - i,
        {
            if self.values[i].0.same(id) {
                return Some(i);
            }
            i += 1;
        }
        None
    }

    /// The entry of an application.
    pub fn get(&self, id: &AppId) -> (r: Option<&IconEntryModel>)
        requires
            self.wf(),
        ensures
            match r {
                Some(entry) => self@.dom().contains(id@) && entry@ == self@[id@],
                None => !self@.dom().contains(id@),
            },
    {
        match self.position(id) {
            Some(i) => {
                proof {
                    self.lemma_entry(i as int);
                }
                Some(&self.values[i].1)
            },
            None => None,
        }
    }

    /// Sets the entry of an application, in place of the one it has or as a
    /// new one.
    pub fn insert(&mut self, id: AppId, entry: IconEntryModel)
        requires
            old(self).wf(),
        ensures
            final(self).wf(),
            final(self)@ == old(self)@.insert(id@, entry@),
    {
        let ghost before = *self;
        let ghost key = id@;
        let ghost value = entry@;
        match self.position(&id) {
            Some(i) => {
                self.values.set(i, (id, entry));
                proof {
                    assert forall|j: int| 0 <= j < self.values@.len() implies #[trigger] self.key(j)
                        == before.key(j) by {}
                    assert(self.wf()) by {
                        assert forall|a: int, b: int|
                            0 <= a < b < self.values@.len() implies #[trigger] self.key(a)
                            != #[trigger] self.key(b) by {
                            assert(before.key(a) != before.key(b));
                        }
                    }
                    assert forall|k: Seq<char>| #[trigger] self@.dom().contains(k) == before@.insert(
                        key,
                        value,
                    ).dom().contains(k) by {
                        if self.has(k) {
                            let c = self.index_of(k);
                            assert(before.key(c) == k);
                        }
                        if before.has(k) {
                            let c = before.index_of(k);
                            assert(self.key(c) == k);
                        }
                        if k == key {
                            assert(self.key(i as int) == k);
                        }
                    }
                    assert forall|k: Seq<char>| self@.dom().contains(k) implies #[trigger] self@[k]
                        == before@.insert(key, value)[k] by {
                        let c = self.index_of(k);
                        self.lemma_entry(c);
                        before.lemma_entry(c);
                    }
                    assert(self@ =~= before@.insert(key, value));
                }
            },
            None => {
                self.values.push((id, entry));
                proof {
                    let n = before.values@.len() as int;
                    assert forall|j: int| 0 <= j < n implies #[trigger] self.key(j) == before.key(
                        j,
                    ) by {}
                    assert(self.key(n) == key);
                    assert(self.wf()) by {
                        assert forall|a: int, b: int|
                            0 <= a < b < self.values@.len() implies #[trigger] self.key(a)
                            != #[trigger] self.key(b) by {
                            if b < n {
                                assert(before.key(a) != before.key(b));
                            } else {
                                assert(before.key(a) != key);
                            }
                        }
                    }
                    assert forall|k: Seq<char>| #[trigger] self@.dom().contains(k) == before@.insert(
                        key,
                        value,
                    ).dom().contains(k) by {
                        if self.has(k) {
                            let c = self.index_of(k);
                            if c < n {
                                assert(before.key(c) == k);
                            }
                        }
                        if before.has(k) {
                            let c = before.index_of(k);
                            assert(self.key(c) == k);
                        }
                    }
                    assert forall|k: Seq<char>| self@.dom().contains(k) implies #[trigger] self@[k]
                        == before@.insert(key, value)[k] by {
                        let c = self.index_of(k);
                        self.lemma_entry(c);
                        if c < n {
                            before.lemma_entry(c);
                        }
                    }
                    assert(self@ =~= before@.insert(key, value));
                }
            },
        }
    }

    /// Takes out the entry of an application, if it has one.
    pub fn remove(&mut self, id: &AppId) -> (r: Option<IconEntryModel>)
        requires
            old(self).wf(),
        ensures
            final(self).wf(),
            final(self)@ == old(self)@.remove(id@),
            match r {
                Some(entry) => old(self)@.dom().contains(id@) && entry@ == old(self)@[id@],
                None => !old(self)@.dom().contains(id@),
            },
    {
        let ghost before = *self;
        let ghost key = id@;
        match self.position(id) {
            Some(i) => {
                proof {
                    before.lemma_entry(i as int);
                }
                let (_, entry) = self.values.remove(i);
                proof {
                    let n = before.values@.len() as int;
                    assert forall|j: int| 0 <= j < n - 1 implies #[trigger] self.key(j) == before.key(
                        if j < i {
                            j
                        } else {
                            j + 1
                        },
                    ) by {}
                    assert(self.wf()) by {
                        assert forall|a: int, b: int|
                            0 <= a < b < self.values@.len() implies #[trigger] self.key(a)
                            != #[trigger] self.key(b) by {
                            let a2 = if a < i {
                                a
                            } else {
                                a + 1
                            };
                            let b2 = if b < i {
                                b
                            } else {
                                b + 1
                            };
                            assert(before.key(a2) != before.key(b2));
                        }
                    }
                    assert forall|k: Seq<char>| #[trigger] self@.dom().contains(k) == before@.remove(
                        key,
                    ).dom().contains(k) by {
                        if self.has(k) {
                            let c = self.index_of(k);
                            let c2 = if c < i {
                                c
                            } else {
                                c + 1
                            };
                            assert(before.key(c2) == k);
                            if c2 < i {
                                assert(before.key(c2) != before.key(i as int));
                            } else {
                                assert(before.key(i as int) != before.key(c2));
                            }
                        }
                        if before.has(k) && k != key {
                            let c = before.index_of(k);
                            let c2 = if c < i {
                                c
                            } else {
                                c - 1
                            };
                            assert(self.key(c2) == k);
                        }
                    }
                    assert forall|k: Seq<char>| self@.dom().contains(k) implies #[trigger] self@[k]
                        == before@.remove(key)[k] by {
                        let c = self.index_of(k);
                        self.lemma_entry(c);
                        before.lemma_entry(
                            if c < i {
                                c
                            } else {
                                c + 1
                            },
                        );
                    }
                    assert(self@ =~= before@.remove(key));
                }
                Some(entry)
            },
            None => {
                assert(self@ =~= before@.remove(key));
                None
            },
        }
    }

    /// Throws away the records of the identities that are not among those
    /// seen. Returns the slots that those records held.
    pub fn keep_seen(&mut self, seen: &IdSet) -> (r: Vec<usize>)
        requires
            old(self).wf(),
        ensures
            final(self).wf(),
            final(self)@ == old(self)@.restrict(seen@),
            forall|slot: usize| lists(r@, slot) <==> is_unseen_slot(old(self)@, seen@, slot),
    {
        let mut to_remove: Vec<AppId> = Vec::new();
        let mut i: usize = 0;
        while i < self.values.len()
            invariant
                i <= self.values@.len(),
                self.wf(),
                *self == *old(self),
                forall|j: int|
                    0 <= j < to_remove@.len() ==> self@.dom().contains((#[trigger] to_remove@[j])@)
                        && !seen@.contains(to_remove@[j]@),
                forall|j: int|
                    0 <= j < i && !seen@.contains(#[trigger] self.key(j)) ==> among(
                        to_remove@,
                        to_remove@.len() as int,
                        self.key(j),
                    ),
            decreases self.values.len() - i,
        {
            let ghost before = to_remove@;
            proof {
                self.lemma_entry(i as int);
            }
            if !seen.contains(&self.values[i].0) {
                to_remove.push(self.values[i].0.clone());
                assert(to_remove@[before.len() as int]@ == self.key(i as int));
                assert forall|j: int|
                    0 <= j < i + 1 && !seen@.contains(#[trigger] self.key(j)) implies among(
                    to_remove@,
                    to_remove@.len() as int,
                    self.key(j),
                ) by {
                    if j < i {
                        let at = choose|at: int|
                            0 <= at < before.len() && at < before.len() && #[trigger] before[at]@
                                == self.key(j);
                        assert(to_remove@[at]@ == self.key(j));
                    }
                }
            }
            i += 1;
        }
        proof {
            assert forall|k: Seq<char>| self@.dom().contains(k) && !seen@.contains(k) implies among(
                to_remove@,
                to_remove@.len() as int,
                k,
            ) by {
                self.lemma_index(k);
            }
        }
        let mut slots: Vec<usize> = Vec::new();
        let mut k: usize = 0;
        let ghost start = self@;
        proof {
            let none = Set::new(|key: Seq<char>| among(to_remove@, 0, key));
            assert(start.remove_keys(none) =~= start);
        }
        while k < to_remove.len()
            invariant
                k <= to_remove@.len(),
                self.wf(),
                start == old(self)@,
                forall|j: int|
                    0 <= j < to_remove@.len() ==> start.dom().contains((#[trigger] to_remove@[j])@)
                        && !seen@.contains(to_remove@[j]@),
                self@ == start.remove_keys(Set::new(|key: Seq<char>| among(to_remove@, k as int, key))),
                forall|slot: usize|
                    lists(slots@, slot) <==> exists|key: Seq<char>|
                        among(to_remove@, k as int, key) && (#[trigger] start[key]).export_id == Some(
                            slot,
                        ),
            decreases to_remove.len() - k,
        {
            let ghost before = slots@;
            let ghost gone = Set::new(|key: Seq<char>| among(to_remove@, k as int, key));
            let ghost gone_next = Set::new(|key: Seq<char>| among(to_remove@, k + 1, key));
            let ghost this = to_remove@[k as int]@;
            proof {
                assert forall|key: Seq<char>| #[trigger] gone_next.contains(key) == (gone.contains(key)
                    || key == this) by {
                    lemma_among_step(to_remove@, k as int, key);
                }
            }
            let removed: Option<usize> = match self.remove(&to_remove[k]) {
                Some(entry) => entry.export_id,
                None => None,
            };
            proof {
                assert(self@ =~= start.remove_keys(gone_next));
                assert(removed is Some ==> !gone.contains(this) && start[this].export_id == removed);
                assert(!gone.contains(this) ==> start[this].export_id == removed);
            }
            match removed {
                Some(slot) => {
                    slots.push(slot);
                },
                None => {},
            }
            proof {
                assert forall|slot: usize| lists(slots@, slot) <==> exists|key: Seq<char>|
                    among(to_remove@, k + 1, key) && (#[trigger] start[key]).export_id == Some(
                        slot,
                    ) by {
                    if lists(slots@, slot) {
                        let at = choose|at: int| 0 <= at < slots@.len() && #[trigger] slots@[at] == slot;
                        if at < before.len() {
                            assert(before[at] == slot);
                            assert(lists(before, slot));
                            let key = choose|key: Seq<char>|
                                among(to_remove@, k as int, key) && (#[trigger] start[key]).export_id
                                    == Some(slot);
                            assert(gone_next.contains(key));
                        } else {
                            assert(gone_next.contains(this));
                            assert(start[this].export_id == Some(slot));
                        }
                    }
                    if exists|key: Seq<char>|
                        among(to_remove@, k + 1, key) && (#[trigger] start[key]).export_id == Some(
                            slot,
                        ) {
                        let key = choose|key: Seq<char>|
                            among(to_remove@, k + 1, key) && (#[trigger] start[key]).export_id
                                == Some(slot);
                        assert(gone_next.contains(key));
                        if gone.contains(key) {
                            assert(lists(before, slot));
                            let at = choose|at: int| 0 <= at < before.len() && #[trigger] before[at] == slot;
                            assert(slots@[at] == slot);
                        } else {
                            assert(key == this);
                            assert(removed == Some(slot));
                            assert(slots@[before.len() as int] == slot);
                        }
                    }
                }
            }
            k += 1;
        }
        proof {
            let gone = Set::new(|key: Seq<char>| among(to_remove@, to_remove@.len() as int, key));
            assert(start.remove_keys(gone) =~= start.restrict(seen@)) by {
                assert forall|key: Seq<char>| start.dom().contains(key) implies (!gone.contains(key)
                    <==> seen@.contains(key)) by {
                    if gone.contains(key) {
                        let at = choose|at: int|
                            0 <= at < to_remove@.len() && at < to_remove@.len()
                                && #[trigger] to_remove@[at]@ == key;
                        assert(!seen@.contains(to_remove@[at]@));
                    }
                }
            }
            assert forall|slot: usize| lists(slots@, slot) <==> is_unseen_slot(start, seen@, slot) by {
                if lists(slots@, slot) {
                    let key = choose|key: Seq<char>|
                        gone.contains(key) && (#[trigger] start[key]).export_id == Some(slot);
                    let at = choose|at: int|
                        0 <= at < to_remove@.len() && at < to_remove@.len()
                            && #[trigger] to_remove@[at]@ == key;
                    assert(start.dom().contains(to_remove@[at]@));
                }
                if is_unseen_slot(start, seen@, slot) {
                    let key = choose|key: Seq<char>|
                        start.dom().contains(key) && !seen@.contains(key) && (
                        #[trigger] start[key]).export_id == Some(slot);
                    assert(gone.contains(key));
                }
            }
        }
        slots
    }

    /// The records of the given entries, taken in one after the other: of
    /// two entries for one application the later one stays.
    pub fn from_entries(entries: Vec<(AppId, IconEntryModel)>) -> (r: IconsModel)
        ensures
            r.wf(),
            r@ == recorded(entries@, entries@.len()),
    {
        let mut model = IconsModel::new();
        let ghost all = entries@;
        for pair in it: entries
            invariant
                it.seq() == all,
                model.wf(),
                model@ == recorded(all, it.index() as nat),
        {
            let (id, entry) = pair;
            model.insert(id, entry);
        }
        model
    }

    /// Whether no two records hold the same slot.
    pub fn has_distinct_slots(&self) -> (r: bool)
        requires
            self.wf(),
        ensures
            r == slots_distinct(self@),
    {
        let mut i: usize = 0;
        while i < self.values.len()
            invariant
                i <= self.values.len(),
                self.wf(),
                forall|a: int, b: int|
                    0 <= a < i && 0 <= b < self.values@.len() && a != b && (
                    #[trigger] self.values@[a]).1.export_id is Some ==> self.values@[a].1.export_id
                        != (#[trigger] self.values@[b]).1.export_id,
            decreases self.values.len() - i,
        {
            if let Some(slot) = self.values[i].1.export_id {
                let mut k: usize = 0;
                while k < self.values.len()
                    invariant
                        k <= self.values.len(),
                        i < self.values.len(),
                        self.wf(),
                        self.values@[i as int].1.export_id == Some(slot),
                        forall|b: int|
                            0 <= b < k && b != i ==> (#[trigger] self.values@[b]).1.export_id
                                != Some(slot),
                    decreases self.values.len() - k,
                {
                    if k != i {
                        if let Some(other) = self.values[k].1.export_id {
                            if other == slot {
                                proof {
                                    self.lemma_entry(i as int);
                                    self.lemma_entry(k as int);
                                    assert(self.key(i as int) != self.key(k as int)) by {
                                        if i < k {
                                            assert(self.key(i as int) != self.key(k as int));
                                        } else {
                                            assert(self.key(k as int) != self.key(i as int));
                                        }
                                    }
                                }
                                return false;
                            }
                        }
                    }
                    k += 1;
                }
            }
            i += 1;
        }
        proof {
            assert forall|a: Seq<char>, b: Seq<char>|
                self@.dom().contains(a) && self@.dom().contains(b) && a != b && (
                #[trigger] self@[a]).export_id is Some implies self@[a].export_id != (
            #[trigger] self@[b]).export_id by {
                self.lemma_index(a);
                self.lemma_index(b);
                let x = self.index_of(a);
                let y = self.index_of(b);
                assert(self.values@[x].1.export_id != self.values@[y].1.export_id);
            }
        }
        true
    }

    /// Whether some entry holds the slot `id`.
    pub fn holds_id(&self, id: usize) -> (r: bool)
        requires
            self.wf(),
        ensures
            r == id_in_use(self@, id),
    {
        let mut i: usize = 0;
        while i < self.values.len()
            invariant
                i <= self.values.len(),
                self.wf(),
                forall|j: int| 0 <= j < i ==> (#[trigger] self.values@[j]).1.export_id != Some(id),
            decreases self.values.len() - i,
        {
            if let Some(held) = self.values[i].1.export_id {
                if held == id {
                    proof {
                        self.lemma_entry(i as int);
                    }
                    return true;
                }
            }
            i += 1;
        }
        proof {
            if id_in_use(self@, id) {
                let k = choose|k: Seq<char>|
                    self@.dom().contains(k) && (#[trigger] self@[k]).export_id == Some(id);
                self.lemma_index(k);
            }
        }
        false
    }

    /// The lowest slot that no entry holds.
    pub fn find_free_id(&self) -> (r: usize)
        requires
            self.wf(),
        ensures
            is_free_id(self@, r),
            r <= self.values@.len(),
    {
        let mut id: usize = 0;
        loop
            invariant
                self.wf(),
                id <= self.values@.len(),
                forall|j: usize| j < id ==> id_in_use(self@, j),
            decreases self.values@.len() - id,
        {
            if !self.holds_id(id) {
                return id;
            }
            proof {
                let ids = Seq::new(self.values@.len(), |i: int| self.values@[i].1.export_id);
                assert forall|j: int| 0 <= j < id + 1 implies #[trigger] slot_held(ids, j) by {
                    assert(id_in_use(self@, j as usize));
                    let k = choose|k: Seq<char>|
                        self@.dom().contains(k) && (#[trigger] self@[k]).export_id == Some(
                            j as usize,
                        );
                    self.lemma_index(k);
                    assert(ids[self.index_of(k)] == Some(j as usize));
                }
                lemma_slots_bounded(ids, id + 1);
            }
            let count: usize = self.values.len();
            assert(id < count);
            id += 1;
        }
    }
}

impl View for IconsModel {
    type V = Map<Seq<char>, IconEntryView>;

    open spec fn view(&self) -> Map<Seq<char>, IconEntryView> {
        Map::new(|k: Seq<char>| self.has(k), |k: Seq<char>| self.values@[self.index_of(k)].1@)
    }
}

impl Default for IconsModel {
    fn default() -> (r: Self)
        ensures
            r.wf(),
            r@ == Map::<Seq<char>, IconEntryView>::empty(),
    {
        IconsModel::new()
    }
}

/// Some position of `ids` holds the slot `slot`.
pub open spec fn slot_held(ids: Seq<Option<usize>>, slot: int) -> bool {
    exists|i: int| 0 <= i < ids.len() && (#[trigger] ids[i]).is_some() && ids[i].unwrap() == slot
}

/// Where each of the slots `0..m` is held at some position, there are at
/// least `m` positions.
pub proof fn lemma_slots_bounded(ids: Seq<Option<usize>>, m: int)
    requires
        0 <= m,
        forall|j: int| 0 <= j < m ==> #[trigger] slot_held(ids, j),
    ensures
        m <= ids.len(),
    decreases m,
{
    if m > 0 {
        let top = m - 1;
        assert(slot_held(ids, top));
        let at = choose|i: int|
            0 <= i < ids.len() && (#[trigger] ids[i]).is_some() && ids[i].unwrap() == top;
        let rest = ids.remove(at);
        assert forall|j: int| 0 <= j < m - 1 implies #[trigger] slot_held(rest, j) by {
            assert(slot_held(ids, j));
            let i = choose|i: int|
                0 <= i < ids.len() && (#[trigger] ids[i]).is_some() && ids[i].unwrap() == j;
            assert(i != at);
            if i < at {
                assert(rest[i] == ids[i]);
            } else {
                assert(rest[i - 1] == ids[i]);
            }
        }
        lemma_slots_bounded(rest, m - 1);
    }
}

} // verus!
