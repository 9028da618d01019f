//! Per-(task, agent) attempt tracking.
//!
//! A completion records when an agent last opened a task (`start_time`), when
//! it last submitted a correct solution (`completion_time`), and the least
//! elapsed time over all correct submissions (`best_time_in_ms`).  The two
//! transitions are pure functions of the prior record and a clock reading:
//! `opened` restarts the attempt, `completed` stops the timer and keeps the
//! minimum.

use crate::db::Db;
use crate::error::AppError;
use crate::error::DtoValidationError;
use crate::store::Store;
use crate::store::StoreError;
use crate::types::Identifier;
use crate::types::IdGen;
use vstd::prelude::*;

verus! {

/// The stored attempt-tracking record for one (task, agent) pair.
#[derive(Clone, Copy, Debug)]
pub struct CompletionInDb {
    pub id: Identifier,
    pub task_id: Identifier,
    pub agent_id: Identifier,
    /// When the agent last opened the task, in ms since the epoch.
    pub start_time: i64,
    /// When the agent last submitted a correct solution, if it ever did
    /// since the last open.
    pub completion_time: Option<i64>,
    /// The least elapsed time of any correct submission, in ms.
    pub best_time_in_ms: Option<i64>,
}

impl CompletionInDb {
    /// Timing fields are consistent: times are non-negative and a recorded
    /// completion does not precede its start.
    pub open spec fn wf(&self) -> bool {
        &&& self.start_time >= 0
        &&& match self.completion_time {
            Some(ct) => ct >= self.start_time,
            None => true,
        }
        &&& match self.best_time_in_ms {
            Some(b) => b >= 0,
            None => true,
        }
    }

    /// A fresh record for a pair first opened at `now_ms`.
    pub fn new(gen: &mut IdGen, task_id: Identifier, agent_id: Identifier, now_ms: i64) -> (r:
        CompletionInDb)
        requires
            now_ms >= 0,
        ensures
            r == (CompletionInDb {
                id: r.id,
                task_id,
                agent_id,
                start_time: now_ms,
                completion_time: None,
                best_time_in_ms: None,
            }),
            r.wf(),
            r.id.value == final(gen).last(),
            r.id.value >= old(gen).last(),
            old(gen).last() < u128::MAX ==> r.id.value > old(gen).last(),
    {
        let id = gen.next_id();
        CompletionInDb {
            id,
            task_id,
            agent_id,
            start_time: now_ms,
            completion_time: None,
            best_time_in_ms: None,
        }
    }

    /// Restarts the attempt in place: the timer starts over at `now_ms`, any
    /// recorded completion is cleared, the best time is kept.  This is the
    /// only transition that moves a completed pair back to in-progress.
    pub fn reopen(&mut self, now_ms: i64)
        requires
            old(self).wf(),
            now_ms >= 0,
        ensures
            *final(self) == opened(*old(self), now_ms),
            final(self).wf(),
    {
        self.start_time = now_ms;
        self.completion_time = None;
    }

    /// Stops the timer at `now_ms`: records the completion and keeps the
    /// least elapsed time seen so far.  Elapsed time must not be negative;
    /// a clock reading before the recorded start is a defect, ruled out
    /// here rather than clamped.
    pub fn complete(&mut self, now_ms: i64)
        requires
            old(self).wf(),
            now_ms >= old(self).start_time,
        ensures
            *final(self) == completed(*old(self), now_ms),
            final(self).wf(),
    {
        let duration = now_ms - self.start_time;
        let best_time_in_ms = match self.best_time_in_ms {
            Some(b) => if duration < b {
                duration
            } else {
                b
            },
            None => duration,
        };
        self.completion_time = Some(now_ms);
        self.best_time_in_ms = Some(best_time_in_ms);
    }
}

/// The record after (re)opening at `now`: timer restarted, completion
/// cleared, best time untouched.
pub open spec fn opened(c: CompletionInDb, now: i64) -> CompletionInDb {
    CompletionInDb {
        id: c.id,
        task_id: c.task_id,
        agent_id: c.agent_id,
        start_time: now,
        completion_time: None,
        best_time_in_ms: c.best_time_in_ms,
    }
}

/// The elapsed time a completion at `now` records.
pub open spec fn elapsed_ms(c: CompletionInDb, now: i64) -> int {
    now - c.start_time
}

/// The best time after a correct submission at `now`: the minimum of the
/// prior best and the new elapsed time, or the elapsed time alone where no
/// prior best exists.
pub open spec fn new_best(c: CompletionInDb, now: i64) -> int {
    match c.best_time_in_ms {
        Some(b) => if elapsed_ms(c, now) < b {
            elapsed_ms(c, now)
        } else {
            b as int
        },
        None => elapsed_ms(c, now),
    }
}

/// The record after a correct submission at `now`.
pub open spec fn completed(c: CompletionInDb, now: i64) -> CompletionInDb {
    CompletionInDb {
        id: c.id,
        task_id: c.task_id,
        agent_id: c.agent_id,
        start_time: c.start_time,
        completion_time: Some(now),
        best_time_in_ms: Some(new_best(c, now) as i64),
    }
}

/// Reopening clears the recorded completion and leaves the best time
/// unchanged, whatever state the record was in.
pub proof fn lemma_restart_clears_completion(c: CompletionInDb, now: i64)
    ensures
        opened(c, now).completion_time is None,
        opened(c, now).best_time_in_ms == c.best_time_in_ms,
        opened(c, now).start_time == now,
{
}

/// The best time never increases: a correct submission leaves it at most
/// its prior value, and exactly the elapsed time where it improves on the
/// prior value or none was recorded.
pub proof fn lemma_best_time_monotone(c: CompletionInDb, now: i64)
    requires
        c.wf(),
        now >= c.start_time,
    ensures
        completed(c, now).best_time_in_ms matches Some(b) && b >= 0,
        c.best_time_in_ms matches Some(b0) ==> completed(c, now).best_time_in_ms->0 <= b0,
        completed(c, now).best_time_in_ms->0 <= elapsed_ms(c, now),
        c.best_time_in_ms is None ==> completed(c, now).best_time_in_ms->0 == elapsed_ms(c, now),
{
}

/// Whether the record tracks the given (task, agent) pair.
pub open spec fn is_pair(c: CompletionInDb, task_id: Identifier, agent_id: Identifier) -> bool {
    c.task_id.value == task_id.value && c.agent_id.value == agent_id.value
}

/// At most one stored completion tracks any (task, agent) pair.
pub open spec fn pair_unique(m: Map<u128, CompletionInDb>) -> bool {
    forall|k1: u128, k2: u128|
        #![trigger m[k1], m[k2]]
        m.contains_key(k1) && m.contains_key(k2) && m[k1].task_id.value == m[k2].task_id.value
            && m[k1].agent_id.value == m[k2].agent_id.value ==> k1 == k2
}

/// The key of the completion tracking the pair, if one is stored.
pub open spec fn pair_key(m: Map<u128, CompletionInDb>, task_id: Identifier, agent_id: Identifier) -> Option<u128> {
    if exists|k: u128| #[trigger] m.contains_key(k) && is_pair(m[k], task_id, agent_id) {
        Some(choose|k: u128| #[trigger] m.contains_key(k) && is_pair(m[k], task_id, agent_id))
    } else {
        None
    }
}

/// Under pair uniqueness, `pair_key` names the one key whose record tracks
/// the pair: any stored record tracking it sits at exactly that key.
pub proof fn lemma_pair_key_unique(
    m: Map<u128, CompletionInDb>,
    task_id: Identifier,
    agent_id: Identifier,
    k: u128,
)
    requires
        pair_unique(m),
        m.contains_key(k),
        is_pair(m[k], task_id, agent_id),
    ensures
        pair_key(m, task_id, agent_id) == Some(k),
{
    assert(m.contains_key(k) && is_pair(m[k], task_id, agent_id));
    let kc = choose|kc: u128| #[trigger] m.contains_key(kc) && is_pair(m[kc], task_id, agent_id);
    assert(m[kc].task_id.value == m[k].task_id.value);
}

/// Finds the stored completion for a (task, agent) pair, with its key.
pub fn read_by(store: &Store<CompletionInDb>, task_id: Identifier, agent_id: Identifier) -> (r:
    Option<(Identifier, CompletionInDb)>)
    requires
        store.wf(),
    ensures
        match r {
            Some((cid, c)) => store.as_map().contains_key(cid.value) && store.as_map()[cid.value]
                == c && is_pair(c, task_id, agent_id),
            None => forall|k: u128|
                #[trigger] store.as_map().contains_key(k) ==> !is_pair(
                    store.as_map()[k],
                    task_id,
                    agent_id,
                ),
        },
{
    proof {
        store.lemma_views_agree();
    }
    let n = store.len();
    let mut i: usize = 0;
    while i < n
        invariant
            store.wf(),
            n == store.seq_view().len(),
            i <= n,
            forall|j: int|
                0 <= j < i ==> !is_pair((#[trigger] store.seq_view()[j]).1, task_id, agent_id),
        decreases n - i,
    {
        let entry = store.get_index(i);
        if entry.1.task_id.value == task_id.value && entry.1.agent_id.value == agent_id.value {
            proof {
                store.lemma_views_agree();
            }
            return Some((entry.0, entry.1));
        }
        i = i + 1;
    }
    proof {
        store.lemma_views_agree();
        assert forall|k: u128| #[trigger] store.as_map().contains_key(k) implies !is_pair(
            store.as_map()[k],
            task_id,
            agent_id,
        ) by {
            let j = choose|j: int|
                0 <= j < store.seq_view().len() && (#[trigger] store.seq_view()[j]).0.value == k;
            assert(!is_pair(store.seq_view()[j].1, task_id, agent_id));
        }
    }
    None
}


/// How `open` changes the completion store: the pair's record is restarted
/// in place where one exists, and a fresh record is stored under a fresh
/// identifier where none does.
pub open spec fn open_effect(
    pre: Map<u128, CompletionInDb>,
    post: Map<u128, CompletionInDb>,
    task_id: Identifier,
    agent_id: Identifier,
    now: i64,
) -> bool {
    match pair_key(pre, task_id, agent_id) {
        Some(k) => post == pre.insert(k, opened(pre[k], now)),
        None => exists|cid: u128|
            !pre.contains_key(cid) && post == pre.insert(
                cid,
                (CompletionInDb {
                    id: Identifier { value: cid },
                    task_id,
                    agent_id,
                    start_time: now,
                    completion_time: None,
                    best_time_in_ms: None,
                }),
            ),
    }
}

/// How `submit` changes the completion store: on a correct solution the
/// pair's record is completed in place, otherwise nothing changes.
pub open spec fn submit_effect(
    pre: Map<u128, CompletionInDb>,
    post: Map<u128, CompletionInDb>,
    task_id: Identifier,
    agent_id: Identifier,
    correct: bool,
    now: i64,
) -> bool {
    match pair_key(pre, task_id, agent_id) {
        Some(k) => if correct {
            post == pre.insert(k, completed(pre[k], now))
        } else {
            post == pre
        },
        None => false,
    }
}


/// Opening a pair twice never yields two records for it: after any `open`,
/// the pair has a record, and a second `open` mutates that record in place —
/// the set of stored completions does not grow.
pub proof fn lemma_open_twice_mutates_in_place(
    m0: Map<u128, CompletionInDb>,
    m1: Map<u128, CompletionInDb>,
    m2: Map<u128, CompletionInDb>,
    task_id: Identifier,
    agent_id: Identifier,
    t1: i64,
    t2: i64,
)
    requires
        pair_unique(m0),
        pair_unique(m1),
        open_effect(m0, m1, task_id, agent_id, t1),
        open_effect(m1, m2, task_id, agent_id, t2),
    ensures
        pair_key(m1, task_id, agent_id) is Some,
        m2 == m1.insert(pair_key(m1, task_id, agent_id)->0, opened(
            m1[pair_key(m1, task_id, agent_id)->0],
            t2,
        )),
        m2.dom() =~= m1.dom(),
{
    match pair_key(m0, task_id, agent_id) {
        Some(k) => {
            assert(m1 == m0.insert(k, opened(m0[k], t1)));
            assert(is_pair(m1[k], task_id, agent_id));
            lemma_pair_key_unique(m1, task_id, agent_id, k);
        },
        None => {
            let cid = choose|cid: u128|
                !m0.contains_key(cid) && m1 == m0.insert(
                    cid,
                    (CompletionInDb {
                        id: Identifier { value: cid },
                        task_id,
                        agent_id,
                        start_time: t1,
                        completion_time: None,
                        best_time_in_ms: None,
                    }),
                );
            assert(is_pair(m1[cid], task_id, agent_id));
            lemma_pair_key_unique(m1, task_id, agent_id, cid);
        },
    }
    let k1 = pair_key(m1, task_id, agent_id)->0;
    assert(m2 == m1.insert(k1, opened(m1[k1], t2)));
}

/// Starts (or restarts) the timer for a (task, agent) pair at `now_ms`.
///
/// Where a completion for the pair exists, it alone is mutated: the timer
/// restarts and the recorded completion is cleared, while the best time
/// stays — calling this twice never yields two records for one pair.  Where
/// none exists, one fresh record is created.  The one failure is an
/// identifier collision, impossible until the identifier space is spent.
pub fn open(db: &mut Db, task_id: Identifier, agent_id: Identifier, now_ms: i64) -> (r: Result<
    Identifier,
    AppError,
>)
    requires
        old(db).wf(),
        now_ms >= old(db).clock.last_ms(),
    ensures
        final(db).wf(),
        final(db).agents == old(db).agents,
        final(db).tasks == old(db).tasks,
        final(db).gen.last() >= old(db).gen.last(),
        match r {
            Ok(cid) => final(db).clock.last_ms() == now_ms && final(db).completions.as_map().contains_key(
                cid.value,
            ) && open_effect(
                old(db).completions.as_map(),
                final(db).completions.as_map(),
                task_id,
                agent_id,
                now_ms,
            ) && (match pair_key(old(db).completions.as_map(), task_id, agent_id) {
                Some(k) => cid.value == k,
                None => !old(db).completions.as_map().contains_key(cid.value),
            }),
            Err(e) => e matches AppError::ValidationError(v) && v.0@ == "duplicate id"@ && old(
                db,
            ).gen.last() == u128::MAX && pair_key(
                old(db).completions.as_map(),
                task_id,
                agent_id,
            ) is None && final(db).completions == old(db).completions,
        },
        old(db).gen.last() < u128::MAX ==> r is Ok,
        pair_key(old(db).completions.as_map(), task_id, agent_id) is Some ==> r is Ok
            && final(db).gen == old(db).gen,
{
    db.clock.observe(now_ms);
    let ghost pre = old(db).completions.as_map();
    match read_by(&db.completions, task_id, agent_id) {
        Some((cid, c)) => {
            proof {
                lemma_pair_key_unique(pre, task_id, agent_id, cid.value);
            }
            let mut updated = c;
            updated.reopen(now_ms);
            match db.completions.update(cid, updated) {
                Ok(()) => {
                    proof {
                        let post = db.completions.as_map();
                        assert(post == pre.insert(cid.value, opened(pre[cid.value], now_ms)));
                        assert(db.wf());
                    }
                    Ok(cid)
                },
                Err(e) => {
                    proof {
                        assert(false);
                    }
                    Err(AppError::from_store(e))
                },
            }
        },
        None => {
            let record = CompletionInDb::new(&mut db.gen, task_id, agent_id, now_ms);
            let cid = record.id;
            match db.completions.insert_new(cid, record) {
                Ok(()) => {
                    proof {
                        assert(pair_key(pre, task_id, agent_id) is None);
                        assert(db.completions.as_map() == pre.insert(cid.value, record));
                        assert(open_effect(
                            pre,
                            db.completions.as_map(),
                            task_id,
                            agent_id,
                            now_ms,
                        ));
                        assert(db.wf());
                    }
                    Ok(cid)
                },
                Err(e) => {
                    proof {
                        if old(db).gen.last() < u128::MAX {
                            assert(cid.value > old(db).gen.last());
                            assert(false);
                        }
                    }
                    Err(AppError::from_store(e))
                },
            }
        },
    }
}

/// Checks a candidate solution for a (task, agent) pair at `now_ms` and
/// returns whether it matched, character for character.
///
/// Fails with the "task not started" error exactly when no completion exists
/// for the pair.  On a correct solution the pair's record alone is completed:
/// the completion time is set to `now_ms` and the best time becomes the
/// minimum of its prior value and the elapsed time.  On a wrong solution
/// nothing changes.  Repeated correct submissions keep updating the record
/// and can only lower the best time further.
pub fn submit(
    db: &mut Db,
    task_id: Identifier,
    agent_id: Identifier,
    candidate_solution: &String,
    canonical_solution: &String,
    now_ms: i64,
) -> (r: Result<bool, AppError>)
    requires
        old(db).wf(),
        now_ms >= old(db).clock.last_ms(),
    ensures
        final(db).wf(),
        final(db).agents == old(db).agents,
        final(db).tasks == old(db).tasks,
        final(db).gen == old(db).gen,
        match r {
            Ok(correct) => correct == (candidate_solution@ == canonical_solution@) && submit_effect(
                old(db).completions.as_map(),
                final(db).completions.as_map(),
                task_id,
                agent_id,
                correct,
                now_ms,
            ) && (correct ==> final(db).clock.last_ms() == now_ms) && (!correct ==> *final(db)
                == *old(db)),
            Err(e) => e matches AppError::ValidationError(v) && v.0@ == "task not started"@
                && pair_key(old(db).completions.as_map(), task_id, agent_id) is None && *final(db)
                == *old(db),
        },
        r is Ok <==> pair_key(old(db).completions.as_map(), task_id, agent_id) is Some,
{
    let ghost pre = old(db).completions.as_map();
    let correct = *candidate_solution == *canonical_solution;
    match read_by(&db.completions, task_id, agent_id) {
        None => {
            proof {
                assert(pair_key(pre, task_id, agent_id) is None);
            }
            Err(AppError::ValidationError(DtoValidationError(String::from_str("task not started"))))
        },
        Some((cid, c)) => {
            proof {
                lemma_pair_key_unique(pre, task_id, agent_id, cid.value);
            }
            if correct {
                db.clock.observe(now_ms);
                let mut updated = c;
                updated.complete(now_ms);
                match db.completions.update(cid, updated) {
                    Ok(()) => {
                        proof {
                            assert(db.completions.as_map() == pre.insert(
                                cid.value,
                                completed(pre[cid.value], now_ms),
                            ));
                            assert(db.wf());
                        }
                        Ok(true)
                    },
                    Err(e) => {
                        proof {
                            assert(false);
                        }
                        Err(AppError::from_store(e))
                    },
                }
            } else {
                Ok(false)
            }
        },
    }
}

} // verus!
