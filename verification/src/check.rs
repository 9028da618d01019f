//! Solution checking: the handler around the timer's `submit` transition.

use crate::completion::pair_key;
use crate::completion::submit;
use crate::completion::submit_effect;
use crate::db::Db;
use crate::error::AppError;
use crate::error::DtoValidationError;
use crate::task::AgentToken;
use crate::traits::byte_len;
use crate::traits::DtoValidator;
use crate::types::Identifier;
use vstd::prelude::*;

verus! {

/// The shape an agent supplies to check a candidate solution.
#[derive(Debug)]
pub struct CheckTaskRequestDto {
    pub solution: String,
}

/// The check's outcome: whether the candidate matched exactly.
#[derive(Debug)]
pub struct CheckTaskResponseDto {
    pub correct: bool,
}

impl DtoValidator for CheckTaskRequestDto {
    /// The candidate solution fits in 32768 bytes.
    open spec fn valid(&self) -> bool {
        byte_len(self.solution@) <= 32768
    }

    open spec fn validation_message(&self) -> Seq<char> {
        "solution too long (must be <=32768)"@
    }

    fn validate(&self) -> (r: Result<(), DtoValidationError>) {
        if self.solution.as_str().as_bytes().len() > 32768 {
            return Err(
                DtoValidationError(String::from_str("solution too long (must be <=32768)")),
            );
        }
        Ok(())
    }
}

/// Checks an agent's candidate solution against a task's canonical solution.
///
/// The presented token must match the agent's stored token, and the agent
/// must have opened the task (a completion for the pair must exist) — else
/// the "task not started" error.  Correctness is exact string equality, with
/// no normalization: on a match the pair's completion is completed at the
/// current clock reading, on a mismatch nothing is written.  The outcome is
/// returned either way.
#[verifier::rlimit(100)]
#[verifier::spinoff_prover]
pub fn check_task(
    db: &mut Db,
    agent_id: Identifier,
    task_id: Identifier,
    token: AgentToken,
    dto: CheckTaskRequestDto,
) -> (r: Result<CheckTaskResponseDto, AppError>)
    requires
        old(db).wf(),
    ensures
        final(db).wf(),
        final(db).agents == old(db).agents,
        final(db).tasks == old(db).tasks,
        final(db).gen == old(db).gen,
        match r {
            Ok(resp) => old(db).agents.as_map().contains_key(agent_id.value) && old(
                db,
            ).agents.as_map()[agent_id.value].token.value == token.token.value && dto.valid()
                && old(db).tasks.as_map().contains_key(task_id.value) && resp.correct == (
            dto.solution@ == old(db).tasks.as_map()[task_id.value].solution@) && (exists|now: i64|
                now >= old(db).clock.last_ms() && submit_effect(
                    old(db).completions.as_map(),
                    final(db).completions.as_map(),
                    task_id,
                    agent_id,
                    resp.correct,
                    now,
                )),
            Err(e) => final(db).completions == old(db).completions && (
            if !old(db).agents.as_map().contains_key(agent_id.value) {
                (e matches AppError::ValidationError(v) && v.0@ == "unknown id"@) && *final(db)
                    == *old(db)
            } else if old(db).agents.as_map()[agent_id.value].token.value != token.token.value {
                e is Unauthorized && *final(db) == *old(db)
            } else if !dto.valid() {
                (e matches AppError::ValidationError(v) && v.0@ == dto.validation_message())
                    && *final(db) == *old(db)
            } else if !old(db).tasks.as_map().contains_key(task_id.value) {
                (e matches AppError::ValidationError(v) && v.0@ == "unknown id"@) && *final(db)
                    == *old(db)
            } else {
                (e matches AppError::ValidationError(v) && v.0@ == "task not started"@) && pair_key(
                    old(db).completions.as_map(),
                    task_id,
                    agent_id,
                ) is None
            }),
        },
        r is Ok <==> (old(db).agents.as_map().contains_key(agent_id.value) && old(
            db,
        ).agents.as_map()[agent_id.value].token.value == token.token.value && dto.valid() && old(
            db,
        ).tasks.as_map().contains_key(task_id.value) && pair_key(
            old(db).completions.as_map(),
            task_id,
            agent_id,
        ) is Some),
{
    let agent_token = match db.agents.read(agent_id) {
        Ok(agent) => agent.token,
        Err(e) => {
            return Err(AppError::from_store(e));
        },
    };
    if agent_token.value != token.token.value {
        return Err(AppError::Unauthorized);
    }
    match dto.validate() {
        Err(v) => {
            return Err(AppError::ValidationError(v));
        },
        Ok(()) => {},
    }
    let canonical_solution = match db.tasks.read(task_id) {
        Ok(task) => task.solution.clone(),
        Err(e) => {
            return Err(AppError::from_store(e));
        },
    };
    let now = db.clock.now_ms();
    match submit(db, task_id, agent_id, &dto.solution, &canonical_solution, now) {
        Ok(correct) => {
            proof {
                assert(now >= old(db).clock.last_ms() && submit_effect(
                    old(db).completions.as_map(),
                    db.completions.as_map(),
                    task_id,
                    agent_id,
                    correct,
                    now,
                ));
                assert(exists|n: i64|
                    n >= old(db).clock.last_ms() && #[trigger] submit_effect(
                        old(db).completions.as_map(),
                        db.completions.as_map(),
                        task_id,
                        agent_id,
                        correct,
                        n,
                    ));
            }
            Ok(CheckTaskResponseDto { correct })
        },
        Err(e) => Err(e),
    }
}

} // verus!
