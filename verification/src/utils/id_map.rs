//! A small map from ids to values that remembers the order of insertion.
//!
//! Walking the map visits the entries in the order in which their ids were
//! first inserted, so everything computed from a walk is determined by the
//! map alone.

use vstd::prelude::*;

verus! {

/// Whether no id occurs twice among the entries.
pub open spec fn ids_distinct<T>(entries: Seq<(usize, T)>) -> bool {
    forall|i: int, j: int|
        0 <= i < entries.len() && 0 <= j < entries.len() && i != j
            ==> (#[trigger] entries[i]).0 != (
        #[trigger] entries[j]).0
}

/// Whether some entry has the id `id`.
pub open spec fn has_id<T>(entries: Seq<(usize, T)>, id: usize) -> bool {
    exists|i: int| 0 <= i < entries.len() && (#[trigger] entries[i]).0 == id
}

/// The place of the first entry with the id `id`; the number of entries if
/// there is none.
pub open spec fn index_of_id<T>(entries: Seq<(usize, T)>, id: usize) -> int
    decreases entries.len(),
{
    if entries.len() == 0 {
        0
    } else if entries[0].0 == id {
        0
    } else {
        1 + index_of_id(entries.drop_first(), id)
    }
}

/// The entries after `value` was stored under `id`: in the place of the
/// entry with that id, or behind all entries if there is none.
pub open spec fn with_entry<T>(entries: Seq<(usize, T)>, id: usize, value: T) -> Seq<(usize, T)> {
    if has_id(entries, id) {
        entries.update(index_of_id(entries, id), (id, value))
    } else {
        entries.push((id, value))
    }
}

/// The entries without the one stored under `id`.
pub open spec fn without_id<T>(entries: Seq<(usize, T)>, id: usize) -> Seq<(usize, T)> {
    if has_id(entries, id) {
        entries.remove(index_of_id(entries, id))
    } else {
        entries
    }
}

/// `index_of_id` finds an entry with the id exactly when there is one, and
/// no entry before it has the id.
pub proof fn lemma_index_of_id<T>(entries: Seq<(usize, T)>, id: usize)
    ensures
        0 <= index_of_id(entries, id) <= entries.len(),
        has_id(entries, id) <==> index_of_id(entries, id) < entries.len(),
        index_of_id(entries, id) < entries.len() ==> entries[index_of_id(entries, id)].0 == id,
        forall|k: int| 0 <= k < index_of_id(entries, id) ==> (#[trigger] entries[k]).0 != id,
    decreases entries.len(),
{
    if entries.len() == 0 {
    } else if entries[0].0 == id {
    } else {
        let rest = entries.drop_first();
        lemma_index_of_id(rest, id);
        let at = index_of_id(rest, id);
        assert forall|k: int| 0 <= k < 1 + at implies (#[trigger] entries[k]).0 != id by {
            if k > 0 {
                assert(rest[k - 1] == entries[k]);
            }
        }
        if has_id(entries, id) {
            let i = choose|i: int| 0 <= i < entries.len() && (#[trigger] entries[i]).0 == id;
            assert(rest[i - 1] == entries[i]);
        }
        if at < rest.len() {
            assert(rest[at] == entries[at + 1]);
        }
    }
}

pub struct IdMap<T> {
    entries: Vec<(usize, T)>,
}

impl<T> View for IdMap<T> {
    type V = Seq<(usize, T)>;

    /// The entries in the order of their insertion.
    closed spec fn view(&self) -> Seq<(usize, T)> {
        self.entries@
    }
}

impl<T> IdMap<T> {
    /// No id occurs twice.
    pub open spec fn wf(&self) -> bool {
        ids_distinct(self@)
    }

    pub fn new() -> (map: IdMap<T>)
        ensures
            map@ == Seq::<(usize, T)>::empty(),
            map.wf(),
    {
        IdMap { entries: Vec::new() }
    }

    pub fn len(&self) -> (n: usize)
        ensures
            n == self@.len(),
    {
        self.entries.len()
    }

    pub fn is_empty(&self) -> (empty: bool)
        ensures
            empty == (self@.len() == 0),
    {
        self.entries.len() == 0
    }

    /// The id of the entry at place `i` of the walk.
    pub fn key_at(&self, i: usize) -> (id: usize)
        requires
            i < self@.len(),
        ensures
            id == self@[i as int].0,
    {
        self.entries[i].0
    }

    /// The value of the entry at place `i` of the walk.
    pub fn value_at(&self, i: usize) -> (value: &T)
        requires
            i < self@.len(),
        ensures
            *value == self@[i as int].1,
    {
        &self.entries[i].1
    }

    /// Lends out the value of the entry at place `i` of the walk.
    pub fn value_at_mut(&mut self, i: usize) -> (value: &mut T)
        requires
            i < old(self)@.len(),
        ensures
            *value == old(self)@[i as int].1,
            final(self)@ == old(self)@.update(i as int, (old(self)@[i as int].0, *final(value))),
    {
        &mut self.entries[i].1
    }

    /// The place of the entry with the id `id` in the walk.
    pub fn position(&self, id: usize) -> (res: Option<usize>)
        ensures
            res.is_some() == has_id(self@, id),
            res matches Some(i) ==> i == index_of_id(self@, id) && i < self@.len()
                && self@[i as int].0
                == id,
    {
        proof {
            lemma_index_of_id(self@, id);
        }
        let mut k: usize = 0;
        while k < self.entries.len()
            invariant
                k <= self.entries.len(),
                k <= index_of_id(self@, id),
                self@ == self.entries@,
                forall|j: int| 0 <= j < index_of_id(self@, id) ==> (#[trigger] self@[j]).0 != id,
                index_of_id(self@, id) < self@.len() ==> self@[index_of_id(self@, id)].0 == id,
                has_id(self@, id) <==> index_of_id(self@, id) < self@.len(),
                index_of_id(self@, id) <= self@.len(),
            decreases self.entries.len() - k,
        {
            if self.entries[k].0 == id {
                return Some(k);
            }
            k = k + 1;
        }
        None
    }

    pub fn contains_key(&self, id: usize) -> (found: bool)
        ensures
            found == has_id(self@, id),
    {
        self.position(id).is_some()
    }

    pub fn get(&self, id: usize) -> (res: Option<&T>)
        ensures
            res.is_some() == has_id(self@, id),
            res matches Some(value) ==> *value == self@[index_of_id(self@, id)].1,
    {
        match self.position(id) {
            Some(i) => Some(&self.entries[i].1),
            None => None,
        }
    }

    /// Lends out the value stored under `id`.
    pub fn get_mut(&mut self, id: usize) -> (res: Option<&mut T>)
        ensures
            res.is_some() == has_id(old(self)@, id),
            res.is_none() ==> final(self)@ == old(self)@,
            res matches Some(value) ==> {
                let i = index_of_id(old(self)@, id);
                &&& *value == old(self)@[i].1
                &&& final(self)@ == old(self)@.update(i, (id, *final(value)))
            },
    {
        match self.position(id) {
            Some(i) => Some(&mut self.entries[i].1),
            None => None,
        }
    }

    /// Stores `value` under `id`. A new id goes to the end of the walk; an id
    /// that is there already keeps its place, and its old value is returned.
    pub fn insert(&mut self, id: usize, value: T) -> (res: Option<T>)
        ensures
            res.is_some() == has_id(old(self)@, id),
            final(self)@ == with_entry(old(self)@, id, value),
            res is None ==> final(self)@ == old(self)@.push((id, value)),
            res matches Some(before) ==> {
                let i = index_of_id(old(self)@, id);
                &&& before == old(self)@[i].1
                &&& final(self)@ == old(self)@.update(i, (id, value))
            },
            old(self).wf() ==> final(self).wf(),
    {
        match self.position(id) {
            Some(i) => {
                let mut held = value;
                std::mem::swap(&mut self.entries[i].1, &mut held);
                assert(self@ =~= old(self)@.update(i as int, (id, value)));
                Some(held)
            },
            None => {
                self.entries.push((id, value));
                None
            },
        }
    }

    /// Takes the entry with the id `id` out of the map. The other entries
    /// keep their order.
    pub fn remove(&mut self, id: usize) -> (res: Option<T>)
        ensures
            res.is_some() == has_id(old(self)@, id),
            final(self)@ == without_id(old(self)@, id),
            res is None ==> final(self)@ == old(self)@,
            res matches Some(value) ==> {
                let i = index_of_id(old(self)@, id);
                &&& value == old(self)@[i].1
                &&& final(self)@ == old(self)@.remove(i)
            },
            old(self).wf() ==> final(self).wf(),
    {
        match self.position(id) {
            Some(i) => {
                let entry = self.entries.remove(i);
                Some(entry.1)
            },
            None => None,
        }
    }
}

/// Storing a value under one id leaves the entries of the other ids as they
/// are.
pub proof fn lemma_with_entry_keeps<T>(entries: Seq<(usize, T)>, id: usize, value: T, other: usize)
    ensures
        has_id(with_entry(entries, id, value), other) == (has_id(entries, other) || other == id),
{
    lemma_index_of_id(entries, id);
    let after = with_entry(entries, id, value);
    if has_id(entries, id) {
        let at = index_of_id(entries, id);
        assert(after[at].0 == id);
        if has_id(entries, other) {
            let i = choose|i: int| 0 <= i < entries.len() && (#[trigger] entries[i]).0 == other;
            assert(after[i].0 == other);
        }
        if has_id(after, other) {
            let i = choose|i: int| 0 <= i < after.len() && (#[trigger] after[i]).0 == other;
            assert(entries[i].0 == other || other == id);
        }
    } else {
        assert(after[entries.len() as int].0 == id);
        if has_id(entries, other) {
            let i = choose|i: int| 0 <= i < entries.len() && (#[trigger] entries[i]).0 == other;
            assert(after[i].0 == other);
        }
        if has_id(after, other) {
            let i = choose|i: int| 0 <= i < after.len() && (#[trigger] after[i]).0 == other;
            if i < entries.len() {
                assert(entries[i].0 == other);
            }
        }
    }
}

/// Taking out the entry of one id leaves the entries of the other ids as they
/// are, where no id occurs twice.
pub proof fn lemma_without_id_keeps<T>(entries: Seq<(usize, T)>, id: usize, other: usize)
    requires
        ids_distinct(entries),
        other != id,
    ensures
        has_id(without_id(entries, id), other) == has_id(entries, other),
        has_id(entries, other) ==> without_id(entries, id)[index_of_id(
            without_id(entries, id),
            other,
        )] == entries[index_of_id(entries, other)],
{
    lemma_index_of_id(entries, id);
    lemma_index_of_id(entries, other);
    let after = without_id(entries, id);
    lemma_index_of_id(after, other);
    if has_id(entries, id) {
        let at = index_of_id(entries, id);
        if has_id(entries, other) {
            let i = index_of_id(entries, other);
            let to = if i < at {
                i
            } else {
                i - 1
            };
            assert(after[to] == entries[i]);
            let found = index_of_id(after, other);
            let from = if found < at {
                found
            } else {
                found + 1
            };
            assert(after[found] == entries[from]);
            assert(from == i);
        }
        if has_id(after, other) {
            let j = choose|j: int| 0 <= j < after.len() && (#[trigger] after[j]).0 == other;
            let from = if j < at {
                j
            } else {
                j + 1
            };
            assert(after[j] == entries[from]);
        }
    }
}

} // verus!
