//! The earlier task shapes, kept alongside the current ones.
//!
//! Here the task record owns its payload as a sum type (the solution lives
//! inside each variant) and goes through the generic engine under a
//! per-entity-type name: a durable backend keeps one directory (or table)
//! of that name, with each record filed under its identifier's canonical
//! text.  The listing is returned sorted ascending by identifier, which
//! approximates creation order.

use crate::error::AppError;
use crate::error::DtoValidationError;
use crate::store::Store;
use crate::traits::byte_len;
use crate::traits::DtoValidator;
use crate::types::Identifier;
use crate::types::IdGen;
use vstd::prelude::*;
use vstd::seq_lib::group_seq_properties;

verus! {

/// The stored task record of this evolution.
#[derive(Debug)]
pub struct TaskModel {
    pub name: String,
    pub task_type: TaskType,
}

impl TaskModel {
    /// The per-entity-type name the engine stores these records under: the
    /// storage directory (or table) of tasks.
    pub fn model_name() -> (r: &'static str)
        ensures
            r@ == "task"@,
    {
        "task"
    }
}

/// The payload variants; each carries its canonical solution.
#[derive(Debug)]
pub enum TaskType {
    SimpleTask { description: String, solution: String },
    AdventOfCodePartOne { description: String, input: String, solution: String },
    AdventOfCodePartTwo { description: String, input: String, solution: String },
}

/// The shape a caller supplies to create a task.
#[allow(non_snake_case)]
#[derive(Debug)]
pub struct TaskCreateDto {
    pub name: String,
    pub taskType: TaskTypeCreateDto,
}

/// The payload shape of a creation request.
#[derive(Debug)]
pub enum TaskTypeCreateDto {
    SimpleTask { description: String, solution: String },
    AdventOfCodePartOne { description: String, input: String, solution: String },
    AdventOfCodePartTwo { description: String, input: String, solution: String },
}

/// A task as read back: the solution is stripped.
#[allow(non_snake_case)]
#[derive(Debug)]
pub struct TaskReadDto {
    pub id: Identifier,
    pub name: String,
    pub taskType: TaskTypeReadDto,
}

/// The payload shape of a read response: no solution.
#[derive(Debug)]
pub enum TaskTypeReadDto {
    SimpleTask { description: String },
    AdventOfCodePartOne { description: String, input: String },
    AdventOfCodePartTwo { description: String, input: String },
}

/// One line of the task listing.
#[allow(non_snake_case)]
#[derive(Debug)]
pub struct TasksReadDto {
    pub id: Identifier,
    pub name: String,
    pub completed: bool,
}

/// The stored payload a creation request describes.
pub open spec fn model_type_of(t: TaskTypeCreateDto) -> TaskType {
    match t {
        TaskTypeCreateDto::SimpleTask { description, solution } => TaskType::SimpleTask {
            description,
            solution,
        },
        TaskTypeCreateDto::AdventOfCodePartOne { description, input, solution } => TaskType::AdventOfCodePartOne {
            description,
            input,
            solution,
        },
        TaskTypeCreateDto::AdventOfCodePartTwo { description, input, solution } => TaskType::AdventOfCodePartTwo {
            description,
            input,
            solution,
        },
    }
}

/// The payload with its solution stripped, as reads hand it out.
pub open spec fn stripped(t: TaskType) -> TaskTypeReadDto {
    match t {
        TaskType::SimpleTask { description, solution } => TaskTypeReadDto::SimpleTask {
            description,
        },
        TaskType::AdventOfCodePartOne { description, input, solution } => TaskTypeReadDto::AdventOfCodePartOne {
            description,
            input,
        },
        TaskType::AdventOfCodePartTwo { description, input, solution } => TaskTypeReadDto::AdventOfCodePartTwo {
            description,
            input,
        },
    }
}

impl DtoValidator for TaskCreateDto {
    /// This evolution's bounds: name within 64 bytes, description within
    /// 4096, input within 32768, solution within 4096.
    open spec fn valid(&self) -> bool {
        &&& byte_len(self.name@) <= 64
        &&& match self.taskType {
            TaskTypeCreateDto::SimpleTask { description, solution } => byte_len(description@)
                <= 4096 && byte_len(solution@) <= 4096,
            TaskTypeCreateDto::AdventOfCodePartOne { description, input, solution } => byte_len(
                description@,
            ) <= 4096 && byte_len(input@) <= 32768 && byte_len(solution@) <= 4096,
            TaskTypeCreateDto::AdventOfCodePartTwo { description, input, solution } => byte_len(
                description@,
            ) <= 4096 && byte_len(input@) <= 32768 && byte_len(solution@) <= 4096,
        }
    }

    /// The reason for the first violated bound, in the order checked: name,
    /// then description, then input, then solution.
    open spec fn validation_message(&self) -> Seq<char> {
        if byte_len(self.name@) > 64 {
            "name too long (must be <=64)"@
        } else {
            let description_long = match self.taskType {
                TaskTypeCreateDto::SimpleTask { description, .. } => byte_len(description@) > 4096,
                TaskTypeCreateDto::AdventOfCodePartOne { description, .. } => byte_len(
                    description@,
                ) > 4096,
                TaskTypeCreateDto::AdventOfCodePartTwo { description, .. } => byte_len(
                    description@,
                ) > 4096,
            };
            let input_long = match self.taskType {
                TaskTypeCreateDto::SimpleTask { .. } => false,
                TaskTypeCreateDto::AdventOfCodePartOne { input, .. } => byte_len(input@) > 32768,
                TaskTypeCreateDto::AdventOfCodePartTwo { input, .. } => byte_len(input@) > 32768,
            };
            if description_long {
                "description too long (must be <=4096)"@
            } else if input_long {
                "input too long (must be <=32768)"@
            } else {
                "solution too long (must be <=4096)"@
            }
        }
    }

    fn validate(&self) -> (r: Result<(), DtoValidationError>) {
        if self.name.as_str().as_bytes().len() > 64 {
            return Err(DtoValidationError(String::from_str("name too long (must be <=64)")));
        }
        match &self.taskType {
            TaskTypeCreateDto::SimpleTask { description, solution } => {
                if description.as_str().as_bytes().len() > 4096 {
                    return Err(
                        DtoValidationError(
                            String::from_str("description too long (must be <=4096)"),
                        ),
                    );
                }
                if solution.as_str().as_bytes().len() > 4096 {
                    return Err(
                        DtoValidationError(String::from_str("solution too long (must be <=4096)")),
                    );
                }
            },
            TaskTypeCreateDto::AdventOfCodePartOne { description, input, solution } => {
                if description.as_str().as_bytes().len() > 4096 {
                    return Err(
                        DtoValidationError(
                            String::from_str("description too long (must be <=4096)"),
                        ),
                    );
                }
                if input.as_str().as_bytes().len() > 32768 {
                    return Err(
                        DtoValidationError(String::from_str("input too long (must be <=32768)")),
                    );
                }
                if solution.as_str().as_bytes().len() > 4096 {
                    return Err(
                        DtoValidationError(String::from_str("solution too long (must be <=4096)")),
                    );
                }
            },
            TaskTypeCreateDto::AdventOfCodePartTwo { description, input, solution } => {
                if description.as_str().as_bytes().len() > 4096 {
                    return Err(
                        DtoValidationError(
                            String::from_str("description too long (must be <=4096)"),
                        ),
                    );
                }
                if input.as_str().as_bytes().len() > 32768 {
                    return Err(
                        DtoValidationError(String::from_str("input too long (must be <=32768)")),
                    );
                }
                if solution.as_str().as_bytes().len() > 4096 {
                    return Err(
                        DtoValidationError(String::from_str("solution too long (must be <=4096)")),
                    );
                }
            },
        }
        Ok(())
    }
}

/// Creates a task of this evolution from a validated request.
pub fn create_task(store: &mut Store<TaskModel>, gen: &mut IdGen, dto: TaskCreateDto) -> (r:
    Result<Identifier, AppError>)
    requires
        old(store).wf(),
    ensures
        final(store).wf(),
        final(gen).last() >= old(gen).last(),
        match r {
            Ok(id) => dto.valid() && !old(store).as_map().contains_key(id.value) && final(store).as_map() == old(store).as_map().insert(
                id.value,
                (TaskModel { name: dto.name, task_type: model_type_of(dto.taskType) }),
            ),
            Err(e) => *final(store) == *old(store) && (match e {
                AppError::ValidationError(v) => (!dto.valid() && v.0@ == dto.validation_message())
                    || (dto.valid() && v.0@ == "duplicate id"@),
                _ => false,
            }),
        },
        (dto.valid() && old(gen).last() < u128::MAX && (forall|k: u128|
            #[trigger] old(store).as_map().contains_key(k) ==> k <= old(gen).last())) ==> r is Ok,
{
    match dto.validate() {
        Err(v) => {
            return Err(AppError::ValidationError(v));
        },
        Ok(()) => {},
    }
    let task_type = match dto.taskType {
        TaskTypeCreateDto::SimpleTask { description, solution } => TaskType::SimpleTask {
            description,
            solution,
        },
        TaskTypeCreateDto::AdventOfCodePartOne { description, input, solution } => TaskType::AdventOfCodePartOne {
            description,
            input,
            solution,
        },
        TaskTypeCreateDto::AdventOfCodePartTwo { description, input, solution } => TaskType::AdventOfCodePartTwo {
            description,
            input,
            solution,
        },
    };
    let model = TaskModel { name: dto.name, task_type };
    match store.create(gen, model) {
        Ok(id) => Ok(id),
        Err(e) => Err(AppError::from_store(e)),
    }
}

/// Reads a task of this evolution back, stripping the solution.
pub fn read_task(store: &Store<TaskModel>, id: Identifier) -> (r: Result<TaskReadDto, AppError>)
    requires
        store.wf(),
    ensures
        match r {
            Ok(dto) => store.as_map().contains_key(id.value) && dto.id == id && dto.name
                == store.as_map()[id.value].name && dto.taskType == stripped(
                store.as_map()[id.value].task_type,
            ),
            Err(e) => !store.as_map().contains_key(id.value) && (e matches
                AppError::ValidationError(v) && v.0@ == "unknown id"@),
        },
{
    let model = match store.read(id) {
        Ok(model) => model,
        Err(e) => {
            return Err(AppError::from_store(e));
        },
    };
    let task_type = match &model.task_type {
        TaskType::SimpleTask { description, solution: _ } => TaskTypeReadDto::SimpleTask {
            description: description.clone(),
        },
        TaskType::AdventOfCodePartOne {
            description,
            input,
            solution: _,
        } => TaskTypeReadDto::AdventOfCodePartOne {
            description: description.clone(),
            input: input.clone(),
        },
        TaskType::AdventOfCodePartTwo {
            description,
            input,
            solution: _,
        } => TaskTypeReadDto::AdventOfCodePartTwo {
            description: description.clone(),
            input: input.clone(),
        },
    };
    Ok(TaskReadDto { id, name: model.name.clone(), taskType: task_type })
}

/// The listing line of each stored entry, before sorting.
pub open spec fn task_listing(s: Seq<(Identifier, TaskModel)>) -> Seq<TasksReadDto> {
    Seq::new(
        s.len(),
        |j: int| (TasksReadDto { id: s[j].0, name: s[j].1.name, completed: false }),
    )
}

/// Ascending by identifier, the order that approximates creation order.
pub open spec fn sorted_by_id(s: Seq<TasksReadDto>) -> bool {
    forall|i: int, j: int|
        0 <= i < j < s.len() ==> (#[trigger] s[i]).id.value <= (#[trigger] s[j]).id.value
}

/// Inserts a line into a sorted listing, keeping it sorted.
fn insert_sorted(v: &mut Vec<TasksReadDto>, x: TasksReadDto)
    requires
        sorted_by_id(old(v)@),
    ensures
        sorted_by_id(final(v)@),
        final(v)@.to_multiset() == old(v)@.to_multiset().insert(x),
        final(v)@.len() == old(v)@.len() + 1,
{
    broadcast use vstd::seq_lib::to_multiset_insert;

    let mut pos: usize = 0;
    while pos < v.len() && v[pos].id.value <= x.id.value
        invariant
            pos <= v@.len(),
            forall|j: int| 0 <= j < pos ==> (#[trigger] v@[j]).id.value <= x.id.value,
        decreases v@.len() - pos,
    {
        pos = pos + 1;
    }
    let ghost before = v@;
    proof {
        assert(pos == before.len() || before[pos as int].id.value > x.id.value);
    }
    v.insert(pos, x);
    proof {
        assert forall|i: int, j: int| 0 <= i < j < v@.len() implies (#[trigger] v@[i]).id.value
            <= (#[trigger] v@[j]).id.value by {
            if j < pos {
                assert(v@[i] == before[i] && v@[j] == before[j]);
            } else if i > pos {
                assert(v@[i] == before[i - 1] && v@[j] == before[j - 1]);
            } else if i < pos && j == pos {
                assert(v@[i] == before[i]);
            } else if i == pos && j > pos {
                assert(v@[j] == before[j - 1]);
                assert(pos < before.len() ==> x.id.value < before[pos as int].id.value);
            } else if i < pos && j > pos {
                assert(v@[i] == before[i] && v@[j] == before[j - 1]);
            }
        }
    }
}

/// Lists every task of this evolution, sorted ascending by identifier: the
/// lines are exactly one per stored task, in identifier order.
pub fn read_tasks(store: &Store<TaskModel>) -> (r: Result<Vec<TasksReadDto>, AppError>)
    requires
        store.wf(),
    ensures
        match r {
            Ok(v) => sorted_by_id(v@) && v@.to_multiset() == task_listing(
                store.seq_view(),
            ).to_multiset() && v@.len() == store.seq_view().len(),
            Err(_) => false,
        },
{
    broadcast use group_seq_properties;

    let models = store.read_all();
    let ghost target = task_listing(store.seq_view());
    let mut out: Vec<TasksReadDto> = Vec::new();
    let mut i: usize = 0;
    proof {
        assert(target.take(0) =~= Seq::<TasksReadDto>::empty());
        assert(Seq::<TasksReadDto>::empty().to_multiset() =~= out@.to_multiset());
    }
    while i < models.len()
        invariant
            store.wf(),
            models@ == store.seq_view(),
            target == task_listing(store.seq_view()),
            i <= models@.len(),
            out@.len() == i,
            sorted_by_id(out@),
            out@.to_multiset() == target.take(i as int).to_multiset(),
        decreases models@.len() - i,
    {
        let line = TasksReadDto { id: models[i].0, name: models[i].1.name.clone(), completed: false };
        proof {
            assert(target[i as int] == line);
            assert(target.take(i as int + 1) =~= target.take(i as int).push(line));
            broadcast use vstd::seq_lib::to_multiset_build;

        }
        insert_sorted(&mut out, line);
        i = i + 1;
    }
    proof {
        assert(target.take(models@.len() as int) =~= target);
    }
    Ok(out)
}

} // verus!
