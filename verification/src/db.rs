//! The assembled storage state: one store per entity type, the identifier
//! generator, and the clock, passed explicitly to every operation.
//!
//! `Db::wf` ties the parts together: every store is well-formed, every record
//! sits under its own identifier, every stored identifier was minted by the
//! generator (so a fresh identifier never collides while the value space
//! lasts), completions are unique per (task, agent) pair, and no recorded
//! time lies ahead of the clock.

use crate::agent::AgentInDb;
use crate::completion::pair_key;
use crate::completion::pair_unique;
use crate::completion::read_by;
use crate::completion::CompletionInDb;
use crate::store::Store;
use crate::store::StoreError;
use crate::task::decode_task_kind;
use crate::task::bounded_kind;
use crate::task::kind_encoding;
use crate::task::TaskInDb;
use crate::task::TaskKindView;
use crate::time::Clock;
use crate::types::IdGen;
use vstd::prelude::*;

verus! {

/// Every stored key is at most `bound`.
pub open spec fn keys_bounded<T>(m: Map<u128, T>, bound: u128) -> bool {
    forall|k: u128| #[trigger] m.contains_key(k) ==> k <= bound
}

/// Every agent record sits under its own identifier.
pub open spec fn agents_consistent(m: Map<u128, AgentInDb>) -> bool {
    forall|k: u128| #[trigger] m.contains_key(k) ==> m[k].id.value == k
}

/// Every task record sits under its own identifier.
pub open spec fn tasks_consistent(m: Map<u128, TaskInDb>) -> bool {
    forall|k: u128| #[trigger] m.contains_key(k) ==> m[k].id.value == k
}

/// Every completion record sits under its own identifier.
pub open spec fn completions_consistent(m: Map<u128, CompletionInDb>) -> bool {
    forall|k: u128| #[trigger] m.contains_key(k) ==> m[k].id.value == k
}

/// Every stored task's payload blob is the encoding of some payload the
/// library can hold, so reading a task back never fails to decode.
pub open spec fn tasks_decodable(m: Map<u128, TaskInDb>) -> bool {
    forall|k: u128|
        #[trigger] m.contains_key(k) ==> exists|kv: TaskKindView|
            bounded_kind(kv) && m[k].task_json@ == kind_encoding(kv)
}

/// Every completion's timing fields are consistent and no recorded time lies
/// ahead of `now_bound`.
pub open spec fn completions_current(m: Map<u128, CompletionInDb>, now_bound: i64) -> bool {
    forall|k: u128|
        #[trigger] m.contains_key(k) ==> m[k].wf() && m[k].start_time <= now_bound && (match m[k].completion_time {
            Some(ct) => ct <= now_bound,
            None => true,
        })
}


/// After a completion is taken into account, the generator sits exactly at
/// the larger of its old position and the record's identifier, and the clock
/// exactly at the largest of its old reading and the record's times.
pub open spec fn restored_gen_and_clock(pre: Db, post: Db, record: CompletionInDb) -> bool {
    &&& post.gen.last() == (if record.id.value > pre.gen.last() {
        record.id.value
    } else {
        pre.gen.last()
    })
    &&& post.clock.last_ms() == {
        let latest = match record.completion_time {
            Some(ct) => ct,
            None => record.start_time,
        };
        if latest > pre.clock.last_ms() {
            latest
        } else {
            pre.clock.last_ms()
        }
    }
}

/// The whole storage state.
pub struct Db {
    pub gen: IdGen,
    pub clock: Clock,
    pub agents: Store<AgentInDb>,
    pub tasks: Store<TaskInDb>,
    pub completions: Store<CompletionInDb>,
}

impl Db {
    /// The cross-store invariant every operation preserves.
    pub open spec fn wf(&self) -> bool {
        &&& self.agents.wf()
        &&& self.tasks.wf()
        &&& self.completions.wf()
        &&& keys_bounded(self.agents.as_map(), self.gen.last())
        &&& keys_bounded(self.tasks.as_map(), self.gen.last())
        &&& keys_bounded(self.completions.as_map(), self.gen.last())
        &&& agents_consistent(self.agents.as_map())
        &&& tasks_consistent(self.tasks.as_map())
        &&& tasks_decodable(self.tasks.as_map())
        &&& completions_consistent(self.completions.as_map())
        &&& pair_unique(self.completions.as_map())
        &&& self.clock.last_ms() >= 0
        &&& completions_current(self.completions.as_map(), self.clock.last_ms())
    }

    /// An empty state.
    pub fn new() -> (r: Db)
        ensures
            r.wf(),
            r.agents.as_map() == Map::<u128, AgentInDb>::empty(),
            r.tasks.as_map() == Map::<u128, TaskInDb>::empty(),
            r.completions.as_map() == Map::<u128, CompletionInDb>::empty(),
            r.gen.last() == 0,
            r.clock.last_ms() == 0,
    {
        Db {
            gen: IdGen::new(),
            clock: Clock::new(),
            agents: Store::new(),
            tasks: Store::new(),
            completions: Store::new(),
        }
    }
    /// Restores a stored agent record, re-establishing the invariant: the
    /// generator is advanced past the record's identifier before the record
    /// is stored, so freshly minted identifiers never collide with restored
    /// ones.  Fails with `DuplicateId` exactly when the identifier is taken.
    pub fn restore_agent(&mut self, record: AgentInDb) -> (r: Result<(), StoreError>)
        requires
            old(self).wf(),
        ensures
            final(self).wf(),
            final(self).tasks == old(self).tasks,
            final(self).completions == old(self).completions,
            final(self).clock == old(self).clock,
            final(self).gen.last() == (if record.id.value > old(self).gen.last() {
                record.id.value
            } else {
                old(self).gen.last()
            }),
            match r {
                Ok(()) => !old(self).agents.as_map().contains_key(record.id.value) && final(self).agents.as_map() == old(self).agents.as_map().insert(record.id.value, record),
                Err(e) => e == StoreError::DuplicateId && old(self).agents.as_map().contains_key(
                    record.id.value,
                ) && final(self).agents == old(self).agents,
            },
    {
        let id = record.id;
        self.gen.observe(id.value);
        self.agents.insert_new(id, record)
    }

    /// Restores a stored task record: its payload blob must decode (else
    /// `Serialization`, the record being corrupt), and its identifier must be
    /// free (else `DuplicateId`).  The generator is advanced past the
    /// identifier before the record is stored.
    pub fn restore_task(&mut self, record: TaskInDb) -> (r: Result<(), StoreError>)
        requires
            old(self).wf(),
        ensures
            final(self).wf(),
            final(self).agents == old(self).agents,
            final(self).completions == old(self).completions,
            final(self).clock == old(self).clock,
            final(self).gen.last() >= old(self).gen.last(),
            match r {
                Ok(()) => (exists|kv: TaskKindView|
                    bounded_kind(kv) && record.task_json@ == #[trigger] kind_encoding(kv)) && !old(self).tasks.as_map().contains_key(record.id.value) && final(self).tasks.as_map() == old(self).tasks.as_map().insert(record.id.value, record) && final(self).gen.last() == (
                if record.id.value > old(self).gen.last() {
                    record.id.value
                } else {
                    old(self).gen.last()
                }),
                Err(e) => final(self).tasks == old(self).tasks && (
                if forall|kv: TaskKindView|
                    bounded_kind(kv) ==> record.task_json@ != #[trigger] kind_encoding(kv) {
                    e == StoreError::Serialization && *final(self) == *old(self)
                } else {
                    e == StoreError::DuplicateId && old(self).tasks.as_map().contains_key(
                        record.id.value,
                    ) && final(self).gen.last() == (if record.id.value > old(self).gen.last() {
                        record.id.value
                    } else {
                        old(self).gen.last()
                    })
                }),
            },
    {
        if decode_task_kind(record.task_json.as_str()).is_none() {
            return Err(StoreError::Serialization);
        }
        let id = record.id;
        self.gen.observe(id.value);
        self.tasks.insert_new(id, record)
    }

    /// Restores a stored completion record: its timing fields must be
    /// consistent (else `Serialization`), and neither its identifier nor its
    /// (task, agent) pair may already be present (else `DuplicateId`).  The
    /// generator and the clock are advanced past the record before it is
    /// stored, so the no-collision and no-negative-elapsed guarantees keep
    /// holding afterwards.
    pub fn restore_completion(&mut self, record: CompletionInDb) -> (r: Result<(), StoreError>)
        requires
            old(self).wf(),
        ensures
            final(self).wf(),
            final(self).agents == old(self).agents,
            final(self).tasks == old(self).tasks,
            final(self).gen.last() >= old(self).gen.last(),
            final(self).clock.last_ms() >= old(self).clock.last_ms(),
            match r {
                Ok(()) => record.wf() && pair_key(
                    old(self).completions.as_map(),
                    record.task_id,
                    record.agent_id,
                ) is None && !old(self).completions.as_map().contains_key(record.id.value)
                    && final(self).completions.as_map() == old(self).completions.as_map().insert(
                    record.id.value,
                    record,
                ) && restored_gen_and_clock(*old(self), *final(self), record),
                Err(e) => final(self).completions == old(self).completions && (
                if !record.wf() {
                    e == StoreError::Serialization && *final(self) == *old(self)
                } else if pair_key(
                    old(self).completions.as_map(),
                    record.task_id,
                    record.agent_id,
                ) is Some {
                    e == StoreError::DuplicateId && *final(self) == *old(self)
                } else {
                    e == StoreError::DuplicateId && old(self).completions.as_map().contains_key(
                        record.id.value,
                    ) && restored_gen_and_clock(*old(self), *final(self), record)
                }),
            },
    {
        let fields_ok = record.start_time >= 0 && (match record.completion_time {
            Some(ct) => ct >= record.start_time,
            None => true,
        }) && (match record.best_time_in_ms {
            Some(b) => b >= 0,
            None => true,
        });
        if !fields_ok {
            return Err(StoreError::Serialization);
        }
        match read_by(&self.completions, record.task_id, record.agent_id) {
            Some((cid, _)) => {
                proof {
                    crate::completion::lemma_pair_key_unique(
                        self.completions.as_map(),
                        record.task_id,
                        record.agent_id,
                        cid.value,
                    );
                }
                Err(StoreError::DuplicateId)
            },
            None => {
                let id = record.id;
                self.gen.observe(id.value);
                self.clock.observe_floor(record.start_time);
                match record.completion_time {
                    Some(ct) => self.clock.observe_floor(ct),
                    None => (),
                }
                self.completions.insert_new(id, record)
            },
        }
    }
}


} // verus!
