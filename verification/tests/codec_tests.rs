//! The payload framing, validation bounds, failure mapping, the bearer-token
//! check, and the earlier task shapes.

use backend_rs::agent::{create_agent, AgentCreateDto};
use backend_rs::auth::ValidateUserOrAdminTokenLayer;
use backend_rs::completion::{open, submit};
use backend_rs::db::Db;
use backend_rs::error::{AppError, DtoValidationError};
use backend_rs::store::{Store, StoreError};
use backend_rs::task::{create_task, decode_task_kind, delete_task, encode_task_kind,
    read_all_tasks, AgentToken, TaskCreateDto, TaskTypeDto};
use backend_rs::task_old;
use backend_rs::types::{IdGen, Identifier};

#[test]
fn simple_kind_encodes_to_the_exact_blob() {
    let kind = TaskTypeDto::SimpleTask {
        description: "d".to_string(),
    };
    assert_eq!(encode_task_kind(&kind), "S00000000000000000001d");
}

#[test]
fn two_part_kind_encodes_to_the_exact_blob() {
    let kind = TaskTypeDto::AdventOfCodePartOne {
        description: "ab".to_string(),
        input: "xyz".to_string(),
    };
    assert_eq!(
        encode_task_kind(&kind),
        "100000000000000000002ab00000000000000000003xyz"
    );
}

#[test]
fn every_kind_round_trips_through_the_blob() {
    let kinds = vec![
        TaskTypeDto::SimpleTask {
            description: "some description with spaces\nand lines".to_string(),
        },
        TaskTypeDto::AdventOfCodePartOne {
            description: String::new(),
            input: "0123456789:S12".to_string(),
        },
        TaskTypeDto::AdventOfCodePartTwo {
            description: "d\u{e9}j\u{e0}".to_string(),
            input: "in".to_string(),
        },
    ];
    for kind in kinds {
        let blob = encode_task_kind(&kind);
        let back = decode_task_kind(&blob).unwrap();
        match (&kind, &back) {
            (
                TaskTypeDto::SimpleTask { description: a },
                TaskTypeDto::SimpleTask { description: b },
            ) => assert_eq!(a, b),
            (
                TaskTypeDto::AdventOfCodePartOne {
                    description: a,
                    input: ai,
                },
                TaskTypeDto::AdventOfCodePartOne {
                    description: b,
                    input: bi,
                },
            ) => {
                assert_eq!(a, b);
                assert_eq!(ai, bi);
            }
            (
                TaskTypeDto::AdventOfCodePartTwo {
                    description: a,
                    input: ai,
                },
                TaskTypeDto::AdventOfCodePartTwo {
                    description: b,
                    input: bi,
                },
            ) => {
                assert_eq!(a, b);
                assert_eq!(ai, bi);
            }
            _ => panic!("the variant changed across the round trip"),
        }
    }
}

#[test]
fn decoding_rejects_malformed_blobs() {
    assert!(decode_task_kind("").is_none());
    assert!(decode_task_kind("S").is_none());
    assert!(decode_task_kind("X00000000000000000001d").is_none());
    assert!(decode_task_kind("S0000000000000000000xd").is_none());
    // Length prefix does not match the content length.
    assert!(decode_task_kind("S00000000000000000005d").is_none());
    assert!(decode_task_kind("S00000000000000000001de").is_none());
    // Second length prefix missing.
    assert!(decode_task_kind("100000000000000000002ab").is_none());
}

#[test]
fn task_bounds_are_checked_in_order() {
    let mut db = Db::new();

    let name_too_long = create_task(
        &mut db,
        TaskCreateDto {
            name: "n".repeat(65),
            taskType: TaskTypeDto::SimpleTask {
                description: "d".repeat(40_000),
            },
            solution: "s".to_string(),
        },
    );
    match name_too_long.unwrap_err() {
        AppError::ValidationError(v) => assert_eq!(v.0, "name too long (must be <=64)"),
        _ => panic!("expected a validation error"),
    }

    let solution_too_long = create_task(
        &mut db,
        TaskCreateDto {
            name: "n".to_string(),
            taskType: TaskTypeDto::SimpleTask {
                description: "d".to_string(),
            },
            solution: "s".repeat(32_769),
        },
    );
    match solution_too_long.unwrap_err() {
        AppError::ValidationError(v) => assert_eq!(v.0, "solution too long (must be <=32768)"),
        _ => panic!("expected a validation error"),
    }

    let description_too_long = create_task(
        &mut db,
        TaskCreateDto {
            name: "n".to_string(),
            taskType: TaskTypeDto::AdventOfCodePartOne {
                description: "d".repeat(32_769),
                input: "i".to_string(),
            },
            solution: "s".to_string(),
        },
    );
    match description_too_long.unwrap_err() {
        AppError::ValidationError(v) => {
            assert_eq!(v.0, "description too long (must be <=32768)")
        }
        _ => panic!("expected a validation error"),
    }

    let input_too_long = create_task(
        &mut db,
        TaskCreateDto {
            name: "n".to_string(),
            taskType: TaskTypeDto::AdventOfCodePartTwo {
                description: "d".to_string(),
                input: "i".repeat(65_537),
            },
            solution: "s".to_string(),
        },
    );
    match input_too_long.unwrap_err() {
        AppError::ValidationError(v) => assert_eq!(v.0, "input too long (must be <=65536)"),
        _ => panic!("expected a validation error"),
    }

    // The largest accepted sizes pass.
    let at_the_bounds = create_task(
        &mut db,
        TaskCreateDto {
            name: "n".repeat(64),
            taskType: TaskTypeDto::AdventOfCodePartOne {
                description: "d".repeat(32_768),
                input: "i".repeat(65_536),
            },
            solution: "s".repeat(32_768),
        },
    );
    assert!(at_the_bounds.is_ok());
}

#[test]
fn failure_kinds_map_to_one_status_each() {
    assert_eq!(
        AppError::InternalServerError(StoreError::Serialization).status_code(),
        500
    );
    assert_eq!(
        AppError::InternalServerError(StoreError::Io).status_code(),
        500
    );
    assert_eq!(
        AppError::ValidationError(DtoValidationError("x".to_string())).status_code(),
        400
    );
    assert_eq!(AppError::Unauthorized.status_code(), 401);

    match AppError::from_store(StoreError::UnknownId) {
        AppError::ValidationError(v) => assert_eq!(v.0, "unknown id"),
        _ => panic!("unknown identifiers are client errors"),
    }
    match AppError::from_store(StoreError::Io) {
        AppError::InternalServerError(StoreError::Io) => {}
        _ => panic!("storage failures are server errors"),
    }
}

#[test]
fn validation_message_carries_the_reason() {
    let e = DtoValidationError("name too long (must be <=64)".to_string());
    assert_eq!(e.message(), "DTO is invalid: name too long (must be <=64)");
}

#[test]
fn bearer_tokens_must_match_exactly() {
    let layer = ValidateUserOrAdminTokenLayer::new("SECRET-REDACTED", "SECRET-ADMIN");
    let service = layer.layer(0u8);
    assert!(service.authorizes("SECRET-REDACTED"));
    assert!(service.authorizes("SECRET-ADMIN"));
    assert!(!service.authorizes("SECRET-REDACTED "));
    assert!(!service.authorizes("secret-redacted"));
    assert!(!service.authorizes(""));
}

#[test]
fn listing_tasks_reports_completion_status() {
    let mut db = Db::new();
    let done_id = create_task(
        &mut db,
        TaskCreateDto {
            name: "done".to_string(),
            taskType: TaskTypeDto::SimpleTask {
                description: "d".to_string(),
            },
            solution: "x".to_string(),
        },
    )
    .unwrap();
    let open_id = create_task(
        &mut db,
        TaskCreateDto {
            name: "pending".to_string(),
            taskType: TaskTypeDto::SimpleTask {
                description: "d".to_string(),
            },
            solution: "y".to_string(),
        },
    )
    .unwrap();
    let agent = create_agent(
        &mut db,
        AgentCreateDto {
            name: "a".to_string(),
        },
    )
    .unwrap();

    let solution = "x".to_string();
    open(&mut db, done_id, agent.id, 0).unwrap();
    assert!(submit(&mut db, done_id, agent.id, &solution, &solution, 5500).unwrap());
    open(&mut db, open_id, agent.id, 6000).unwrap();

    let lines = read_all_tasks(&db, agent.id, AgentToken { token: agent.token }).unwrap();
    assert_eq!(lines.len(), 2);
    assert_eq!(lines[0].id, done_id);
    assert!(lines[0].completed);
    // The listing reports whole unix seconds: 5500 ms completed at second 5.
    assert_eq!(lines[0].time, Some(5));
    assert_eq!(lines[1].id, open_id);
    assert!(!lines[1].completed);
    assert_eq!(lines[1].time, None);
}

#[test]
fn deleting_a_task_leaves_completions_in_place() {
    let mut db = Db::new();
    let task_id = create_task(
        &mut db,
        TaskCreateDto {
            name: "t".to_string(),
            taskType: TaskTypeDto::SimpleTask {
                description: "d".to_string(),
            },
            solution: "x".to_string(),
        },
    )
    .unwrap();
    let agent = create_agent(
        &mut db,
        AgentCreateDto {
            name: "a".to_string(),
        },
    )
    .unwrap();
    open(&mut db, task_id, agent.id, 0).unwrap();

    let deleted = delete_task(&mut db, task_id).unwrap();
    assert_eq!(deleted, task_id);
    assert_eq!(db.tasks.read_all().len(), 0);
    // No cascade: the completion is orphaned, not removed.
    assert_eq!(db.completions.read_all().len(), 1);

    match delete_task(&mut db, task_id).unwrap_err() {
        AppError::ValidationError(v) => assert_eq!(v.0, "unknown id"),
        _ => panic!("expected a validation error"),
    }
}

#[test]
fn old_shapes_strip_the_solution_on_read() {
    let mut store: Store<task_old::TaskModel> = Store::new();
    let mut gen = IdGen::new();
    let id = task_old::create_task(
        &mut store,
        &mut gen,
        task_old::TaskCreateDto {
            name: "t".to_string(),
            taskType: task_old::TaskTypeCreateDto::AdventOfCodePartOne {
                description: "d".to_string(),
                input: "i".to_string(),
                solution: "secret".to_string(),
            },
        },
    )
    .unwrap();

    let read = task_old::read_task(&store, id).unwrap();
    assert_eq!(read.id, id);
    assert_eq!(read.name, "t");
    match read.taskType {
        task_old::TaskTypeReadDto::AdventOfCodePartOne { description, input } => {
            assert_eq!(description, "d");
            assert_eq!(input, "i");
        }
        _ => panic!("expected the part-one kind"),
    }
}

#[test]
fn old_bounds_use_the_earlier_limits() {
    let mut store: Store<task_old::TaskModel> = Store::new();
    let mut gen = IdGen::new();
    let err = task_old::create_task(
        &mut store,
        &mut gen,
        task_old::TaskCreateDto {
            name: "t".to_string(),
            taskType: task_old::TaskTypeCreateDto::SimpleTask {
                description: "d".repeat(4097),
                solution: "s".to_string(),
            },
        },
    )
    .unwrap_err();
    match err {
        AppError::ValidationError(v) => assert_eq!(v.0, "description too long (must be <=4096)"),
        _ => panic!("expected a validation error"),
    }
}

#[test]
fn old_listing_is_sorted_by_identifier() {
    let mut store: Store<task_old::TaskModel> = Store::new();
    // Insert out of identifier order on purpose.
    let ids = vec![30u128, 10, 20];
    for v in &ids {
        let id = Identifier::from_value(*v);
        store
            .insert_new(
                id,
                task_old::TaskModel {
                    name: format!("t{v}"),
                    task_type: task_old::TaskType::SimpleTask {
                        description: "d".to_string(),
                        solution: "s".to_string(),
                    },
                },
            )
            .unwrap();
    }

    let listing = task_old::read_tasks(&store).unwrap();
    assert_eq!(listing.len(), 3);
    assert_eq!(listing[0].id, Identifier::from_value(10));
    assert_eq!(listing[1].id, Identifier::from_value(20));
    assert_eq!(listing[2].id, Identifier::from_value(30));
    assert_eq!(listing[0].name, "t10");
    assert!(!listing[0].completed);
    assert_eq!(task_old::TaskModel::model_name(), "task");
}
