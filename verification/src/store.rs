//! The entity persistence engine.
//!
//! A [`Store`] holds every record of one entity type, keyed by identifier.
//! Its abstract state is a map from identifier value to record (`as_map`),
//! alongside the sequence of entries in insertion order (`seq_view`) that
//! `read_all` exposes.  Operations report failures through the fixed
//! [`StoreError`] taxonomy and never through backend-native errors.

use crate::types::Identifier;
use crate::types::IdGen;
use vstd::prelude::*;

verus! {

/// The failure taxonomy of the persistence engine.
#[derive(Clone, Copy, Debug, PartialEq, Eq, Structural)]
pub enum StoreError {
    /// The operation targets an identifier no record is stored under.
    UnknownId,
    /// A freshly minted identifier collided with a stored record.
    DuplicateId,
    /// A stored record's encoding cannot be read back.
    Serialization,
    /// The storage medium failed.
    Io,
}

/// The map from identifier value to record that a sequence of entries holds,
/// later entries winning.
pub open spec fn entries_map<T>(s: Seq<(Identifier, T)>) -> Map<u128, T>
    decreases s.len(),
{
    if s.len() == 0 {
        Map::empty()
    } else {
        entries_map(s.drop_last()).insert(s.last().0.value, s.last().1)
    }
}

/// No two entries share an identifier value.
pub open spec fn unique_ids<T>(s: Seq<(Identifier, T)>) -> bool {
    forall|i: int, j: int|
        0 <= i < j < s.len() ==> (#[trigger] s[i]).0.value != (#[trigger] s[j]).0.value
}

/// A key is stored exactly when some entry carries it.
pub proof fn lemma_entries_map_contains<T>(s: Seq<(Identifier, T)>, k: u128)
    ensures
        entries_map(s).contains_key(k) <==> exists|i: int|
            0 <= i < s.len() && (#[trigger] s[i]).0.value == k,
    decreases s.len(),
{
    if s.len() > 0 {
        lemma_entries_map_contains(s.drop_last(), k);
        let n = s.len() as int;
        if s[n - 1].0.value == k {
            assert(entries_map(s).contains_key(k));
        } else {
            if entries_map(s).contains_key(k) {
                let i = choose|i: int|
                    0 <= i < s.drop_last().len() && (#[trigger] s.drop_last()[i]).0.value == k;
                assert(s[i].0.value == k);
            }
            if exists|i: int| 0 <= i < s.len() && (#[trigger] s[i]).0.value == k {
                let i = choose|i: int| 0 <= i < s.len() && (#[trigger] s[i]).0.value == k;
                assert(s.drop_last()[i].0.value == k);
            }
        }
    }
}

/// Under unique identifiers, the map agrees with every entry.
pub proof fn lemma_entries_map_index<T>(s: Seq<(Identifier, T)>, i: int)
    requires
        unique_ids(s),
        0 <= i < s.len(),
    ensures
        entries_map(s).contains_key(s[i].0.value),
        entries_map(s)[s[i].0.value] == s[i].1,
    decreases s.len(),
{
    let n = s.len() as int;
    if i < n - 1 {
        assert(s[i].0.value != s[n - 1].0.value);
        assert(s.drop_last()[i] == s[i]);
        lemma_entries_map_index(s.drop_last(), i);
    }
}

/// Replacing the record of entry `i` updates exactly that key in the map.
pub proof fn lemma_entries_map_update<T>(s: Seq<(Identifier, T)>, i: int, v: T)
    requires
        unique_ids(s),
        0 <= i < s.len(),
    ensures
        entries_map(s.update(i, (s[i].0, v))) == entries_map(s).insert(s[i].0.value, v),
    decreases s.len(),
{
    let n = s.len() as int;
    let t = s.update(i, (s[i].0, v));
    if i == n - 1 {
        assert(t.drop_last() =~= s.drop_last());
        assert(entries_map(t) == entries_map(s.drop_last()).insert(s[i].0.value, v));
        assert(entries_map(s.drop_last()).insert(s[i].0.value, v) =~= entries_map(
            s,
        ).insert(s[i].0.value, v));
    } else {
        assert(t.drop_last() =~= s.drop_last().update(i, (s[i].0, v)));
        assert(s.drop_last()[i] == s[i]);
        lemma_entries_map_update(s.drop_last(), i, v);
        assert(t.last() == s.last());
        assert(entries_map(t) == entries_map(s.drop_last()).insert(s[i].0.value, v).insert(
            s.last().0.value,
            s.last().1,
        ));
        assert(s[i].0.value != s[n - 1].0.value);
        assert(entries_map(s.drop_last()).insert(s[i].0.value, v).insert(
            s.last().0.value,
            s.last().1,
        ) =~= entries_map(s).insert(s[i].0.value, v));
    }
}

/// Removing entry `i` removes exactly that key from the map.
pub proof fn lemma_entries_map_remove<T>(s: Seq<(Identifier, T)>, i: int)
    requires
        unique_ids(s),
        0 <= i < s.len(),
    ensures
        entries_map(s.remove(i)) == entries_map(s).remove(s[i].0.value),
    decreases s.len(),
{
    let n = s.len() as int;
    let k = s[i].0.value;
    if i == n - 1 {
        assert(s.remove(i) =~= s.drop_last());
        lemma_entries_map_contains(s.drop_last(), k);
        assert forall|j: int| 0 <= j < s.drop_last().len() implies (#[trigger] s.drop_last()[j]).0.value
            != k by {
            assert(s[j].0.value != s[n - 1].0.value);
        }
        assert(!entries_map(s.drop_last()).contains_key(k));
        assert(entries_map(s.drop_last()) =~= entries_map(s).remove(k));
    } else {
        assert(s.remove(i).drop_last() =~= s.drop_last().remove(i));
        assert(s.drop_last()[i] == s[i]);
        lemma_entries_map_remove(s.drop_last(), i);
        assert(s.remove(i).last() == s.last());
        assert(entries_map(s.remove(i)) == entries_map(s.drop_last()).remove(k).insert(
            s.last().0.value,
            s.last().1,
        ));
        assert(s[i].0.value != s[n - 1].0.value);
        assert(entries_map(s.drop_last()).remove(k).insert(s.last().0.value, s.last().1)
            =~= entries_map(s).remove(k));
    }
}


/// Create-then-read: a record stored under a fresh identifier is read back
/// unchanged, and stays unchanged under further reads — the stored map is
/// the only state, so a key's record is stable until the next write to it.
pub proof fn lemma_create_then_read<T>(
    pre: Map<u128, T>,
    post: Map<u128, T>,
    id: Identifier,
    record: T,
)
    requires
        !pre.contains_key(id.value),
        post == pre.insert(id.value, record),
    ensures
        post.contains_key(id.value),
        post[id.value] == record,
        forall|k: u128| #[trigger] pre.contains_key(k) ==> post.contains_key(k) && post[k] == pre[k],
{
}

/// A store of records of one entity type, keyed by identifier.
pub struct Store<T> {
    entries: Vec<(Identifier, T)>,
}

impl<T> Store<T> {
    /// The stored entries in insertion order.
    pub closed spec fn seq_view(&self) -> Seq<(Identifier, T)> {
        self.entries@
    }

    /// The stored records, keyed by identifier value.
    pub closed spec fn as_map(&self) -> Map<u128, T> {
        entries_map(self.entries@)
    }

    /// Well-formed: no two entries share an identifier.
    pub closed spec fn wf(&self) -> bool {
        unique_ids(self.entries@)
    }

    /// Bridges the two views: every entry is stored under its identifier,
    /// and every stored key belongs to some entry.
    pub proof fn lemma_views_agree(&self)
        requires
            self.wf(),
        ensures
            forall|i: int|
                0 <= i < self.seq_view().len() ==> self.as_map().contains_key(
                    (#[trigger] self.seq_view()[i]).0.value,
                ) && self.as_map()[self.seq_view()[i].0.value] == self.seq_view()[i].1,
            forall|k: u128|
                #[trigger] self.as_map().contains_key(k) ==> exists|i: int|
                    0 <= i < self.seq_view().len() && (#[trigger] self.seq_view()[i]).0.value == k,
    {
        assert forall|i: int| 0 <= i < self.seq_view().len() implies self.as_map().contains_key(
            (#[trigger] self.seq_view()[i]).0.value,
        ) && self.as_map()[self.seq_view()[i].0.value] == self.seq_view()[i].1 by {
            lemma_entries_map_index(self.entries@, i);
        }
        assert forall|k: u128| #[trigger] self.as_map().contains_key(k) implies exists|i: int|
            0 <= i < self.seq_view().len() && (#[trigger] self.seq_view()[i]).0.value == k by {
            lemma_entries_map_contains(self.entries@, k);
            let i = choose|i: int| 0 <= i < self.entries@.len() && (#[trigger] self.entries@[i]).0.value == k;
            assert(self.seq_view()[i].0.value == k);
        }
    }

    /// An identifier carried by no entry is not a stored key.
    proof fn lemma_absent(&self, id: Identifier)
        requires
            forall|i: int|
                0 <= i < self.seq_view().len() ==> (#[trigger] self.seq_view()[i]).0.value
                    != id.value,
        ensures
            !self.as_map().contains_key(id.value),
    {
        lemma_entries_map_contains(self.entries@, id.value);
        if self.as_map().contains_key(id.value) {
            let i = choose|i: int|
                0 <= i < self.entries@.len() && (#[trigger] self.entries@[i]).0.value == id.value;
            assert(self.seq_view()[i].0.value != id.value);
        }
    }

    /// An empty store.
    pub fn new() -> (r: Store<T>)
        ensures
            r.wf(),
            r.as_map() == Map::<u128, T>::empty(),
            r.seq_view() == Seq::<(Identifier, T)>::empty(),
    {
        let entries: Vec<(Identifier, T)> = Vec::new();
        Store { entries }
    }

    /// How many records are stored.
    pub fn len(&self) -> (r: usize)
        ensures
            r == self.seq_view().len(),
    {
        self.entries.len()
    }

    /// The entry at a position of the insertion order.
    pub fn get_index(&self, i: usize) -> (r: &(Identifier, T))
        requires
            i < self.seq_view().len(),
        ensures
            *r == self.seq_view()[i as int],
    {
        &self.entries[i]
    }

    /// Every stored entry, in insertion order.
    pub fn read_all(&self) -> (r: &Vec<(Identifier, T)>)
        ensures
            r@ == self.seq_view(),
    {
        &self.entries
    }

    /// The position of the record stored under `id`, if any.
    fn index_of(&self, id: Identifier) -> (r: Option<usize>)
        ensures
            match r {
                Some(i) => i < self.seq_view().len() && self.seq_view()[i as int].0.value
                    == id.value,
                None => forall|i: int|
                    0 <= i < self.seq_view().len() ==> (#[trigger] self.seq_view()[i]).0.value
                        != id.value,
            },
    {
        let mut i: usize = 0;
        while i < self.entries.len()
            invariant
                i <= self.entries@.len(),
                forall|j: int|
                    0 <= j < i ==> (#[trigger] self.entries@[j]).0.value != id.value,
            decreases self.entries@.len() - i,
        {
            if self.entries[i].0.value == id.value {
                return Some(i);
            }
            i = i + 1;
        }
        None
    }

    /// Reads the record stored under `id`; fails with `UnknownId` exactly
    /// when no record is stored under it.
    pub fn read(&self, id: Identifier) -> (r: Result<&T, StoreError>)
        requires
            self.wf(),
        ensures
            match r {
                Ok(record) => self.as_map().contains_key(id.value) && *record == self.as_map()[id.value],
                Err(e) => e == StoreError::UnknownId && !self.as_map().contains_key(id.value),
            },
    {
        proof {
            assert(self.seq_view() == self.entries@);
            lemma_entries_map_contains(self.entries@, id.value);
        }
        match self.index_of(id) {
            Some(i) => {
                proof {
                    lemma_entries_map_index(self.entries@, i as int);
                }
                Ok(&self.entries[i].1)
            },
            None => Err(StoreError::UnknownId),
        }
    }

    /// Stores `record` under `id`; fails with `DuplicateId` exactly when a
    /// record is already stored under it, leaving the store unchanged.
    pub fn insert_new(&mut self, id: Identifier, record: T) -> (r: Result<(), StoreError>)
        requires
            old(self).wf(),
        ensures
            final(self).wf(),
            match r {
                Ok(()) => !old(self).as_map().contains_key(id.value) && final(self).as_map()
                    == old(self).as_map().insert(id.value, record) && final(self).seq_view()
                    == old(self).seq_view().push((id, record)),
                Err(e) => e == StoreError::DuplicateId && old(self).as_map().contains_key(id.value)
                    && *final(self) == *old(self),
            },
    {
        proof {
            assert(old(self).seq_view() == old(self).entries@);
            lemma_entries_map_contains(self.entries@, id.value);
        }
        match self.index_of(id) {
            Some(_) => Err(StoreError::DuplicateId),
            None => {
                self.entries.push((id, record));
                proof {
                    let s = old(self).entries@;
                    let t = self.entries@;
                    assert(t.drop_last() =~= s);
                    assert(entries_map(t) == entries_map(s).insert(id.value, record));
                    assert forall|i: int, j: int| 0 <= i < j < t.len() implies (#[trigger] t[i]).0.value
                        != (#[trigger] t[j]).0.value by {
                        if j < t.len() - 1 {
                            assert(s[i] == t[i] && s[j] == t[j]);
                        } else {
                            assert(t[i] == s[i]);
                            assert(old(self).seq_view()[i].0.value != id.value);
                        }
                    }
                }
                Ok(())
            },
        }
    }

    /// Mints a fresh identifier and stores `record` under it, returning the
    /// identifier.  `DuplicateId` is defensively checked: it is reported, and
    /// the store left unchanged, exactly when the minted identifier is
    /// already taken — impossible, and so success owed, wherever every stored
    /// key was minted by this generator and its value space is not spent.
    pub fn create(&mut self, gen: &mut IdGen, record: T) -> (r: Result<Identifier, StoreError>)
        requires
            old(self).wf(),
        ensures
            final(self).wf(),
            final(gen).last() >= old(gen).last(),
            match r {
                Ok(id) => id.value == final(gen).last() && id.value >= old(gen).last()
                    && !old(self).as_map().contains_key(id.value) && final(self).as_map()
                    == old(self).as_map().insert(id.value, record) && final(self).seq_view()
                    == old(self).seq_view().push((id, record)),
                Err(e) => e == StoreError::DuplicateId && *final(self) == *old(self),
            },
            (old(gen).last() < u128::MAX && (forall|k: u128|
                #[trigger] old(self).as_map().contains_key(k) ==> k <= old(gen).last())) ==> r
                is Ok,
    {
        let id = gen.next_id();
        match self.insert_new(id, record) {
            Ok(()) => Ok(id),
            Err(e) => {
                proof {
                    if old(gen).last() < u128::MAX && (forall|k: u128|
                        #[trigger] old(self).as_map().contains_key(k) ==> k <= old(gen).last()) {
                        assert(old(self).as_map().contains_key(id.value));
                        assert(id.value > old(gen).last());
                    }
                }
                Err(e)
            },
        }
    }

    /// Replaces the whole record stored under `id`; fails with `UnknownId`
    /// exactly when no record is stored under it.  Identifiers and their
    /// order are untouched.
    pub fn update(&mut self, id: Identifier, record: T) -> (r: Result<(), StoreError>)
        requires
            old(self).wf(),
        ensures
            final(self).wf(),
            match r {
                Ok(()) => old(self).as_map().contains_key(id.value) && final(self).as_map()
                    == old(self).as_map().insert(id.value, record) && final(self).seq_view().len()
                    == old(self).seq_view().len() && forall|j: int|
                    0 <= j < old(self).seq_view().len() ==> #[trigger] final(self).seq_view()[j] == (
                    if old(self).seq_view()[j].0.value == id.value {
                        (old(self).seq_view()[j].0, record)
                    } else {
                        old(self).seq_view()[j]
                    }),
                Err(e) => e == StoreError::UnknownId && !old(self).as_map().contains_key(id.value)
                    && *final(self) == *old(self),
            },
    {
        proof {
            lemma_entries_map_contains(self.entries@, id.value);
        }
        match self.index_of(id) {
            Some(i) => {
                proof {
                    lemma_entries_map_index(self.entries@, i as int);
                    lemma_entries_map_update(self.entries@, i as int, record);
                }
                let stored_id = self.entries[i].0;
                self.entries.set(i, (stored_id, record));
                proof {
                    let s = old(self).entries@;
                    let t = self.entries@;
                    assert(t =~= s.update(i as int, (s[i as int].0, record)));
                    assert forall|a: int, b: int| 0 <= a < b < t.len() implies (#[trigger] t[a]).0.value
                        != (#[trigger] t[b]).0.value by {
                        assert(t[a].0 == s[a].0 && t[b].0 == s[b].0);
                    }
                    assert forall|j: int| 0 <= j < s.len() implies #[trigger] t[j] == (
                    if s[j].0.value == id.value {
                        (s[j].0, record)
                    } else {
                        s[j]
                    }) by {
                        if j != i as int {
                            assert(s[j].0.value != s[i as int].0.value);
                        }
                    }
                }
                Ok(())
            },
            None => Err(StoreError::UnknownId),
        }
    }

    /// Removes the record stored under `id`; fails with `UnknownId` exactly
    /// when no record is stored under it.
    pub fn delete(&mut self, id: Identifier) -> (r: Result<(), StoreError>)
        requires
            old(self).wf(),
        ensures
            final(self).wf(),
            match r {
                Ok(()) => old(self).as_map().contains_key(id.value) && final(self).as_map()
                    == old(self).as_map().remove(id.value) && exists|i: int|
                    0 <= i < old(self).seq_view().len() && (#[trigger] old(self).seq_view()[i]).0.value
                        == id.value && final(self).seq_view() == old(self).seq_view().remove(i),
                Err(e) => e == StoreError::UnknownId && !old(self).as_map().contains_key(id.value)
                    && *final(self) == *old(self),
            },
    {
        proof {
            lemma_entries_map_contains(self.entries@, id.value);
        }
        match self.index_of(id) {
            Some(i) => {
                proof {
                    lemma_entries_map_index(self.entries@, i as int);
                    lemma_entries_map_remove(self.entries@, i as int);
                }
                self.entries.remove(i);
                proof {
                    let s = old(self).entries@;
                    let t = self.entries@;
                    assert(t =~= s.remove(i as int));
                    assert(old(self).seq_view()[i as int].0.value == id.value);
                    assert(final(self).seq_view() == old(self).seq_view().remove(i as int));
                    assert forall|a: int, b: int| 0 <= a < b < t.len() implies (#[trigger] t[a]).0.value
                        != (#[trigger] t[b]).0.value by {
                        let sa: int = if a < i as int {
                            a
                        } else {
                            a + 1
                        };
                        let sb: int = if b < i as int {
                            b
                        } else {
                            b + 1
                        };
                        assert(t[a] == s[sa] && t[b] == s[sb]);
                    }
                }
                Ok(())
            },
            None => {
                proof {
                    self.lemma_absent(id);
                }
                Err(StoreError::UnknownId)
            },
        }
    }
}

} // verus!
