//! The persistence engine: create/read/update/delete and the identifier
//! generator, exercised through the public API.

use backend_rs::agent::{create_agent, read_agent, read_all_agents, AgentCreateDto, AgentInDb};
use backend_rs::completion::CompletionInDb;
use backend_rs::db::Db;
use backend_rs::error::AppError;
use backend_rs::store::{Store, StoreError};
use backend_rs::task::{encode_task_kind, TaskInDb, TaskTypeDto};
use backend_rs::types::{IdGen, Identifier};

#[test]
fn create_then_read_returns_equal_fields() {
    let mut db = Db::new();
    let created = create_agent(
        &mut db,
        AgentCreateDto {
            name: "ada".to_string(),
        },
    )
    .unwrap();

    let first = read_agent(&db, created.id).unwrap();
    assert_eq!(first.id, created.id);
    assert_eq!(first.name, "ada");

    // The identifier is stable across repeated reads.
    let second = read_agent(&db, created.id).unwrap();
    assert_eq!(second.id, first.id);
    assert_eq!(second.name, first.name);
}

#[test]
fn read_unknown_agent_fails() {
    let db = Db::new();
    let missing = Identifier::from_value(42);
    let err = read_agent(&db, missing).unwrap_err();
    match err {
        AppError::ValidationError(v) => assert_eq!(v.0, "unknown id"),
        _ => panic!("expected a validation error"),
    }
}

#[test]
fn unknown_id_fails_for_every_operation() {
    let mut store: Store<TaskInDb> = Store::new();
    let missing = Identifier::from_value(7);
    let record = TaskInDb {
        id: missing,
        name: "t".to_string(),
        task_json: String::new(),
        solution: "s".to_string(),
    };

    assert!(matches!(store.read(missing), Err(StoreError::UnknownId)));
    assert!(matches!(
        store.update(missing, record),
        Err(StoreError::UnknownId)
    ));
    assert!(matches!(store.delete(missing), Err(StoreError::UnknownId)));
}

#[test]
fn duplicate_id_is_rejected_and_store_unchanged() {
    let mut store: Store<AgentInDb> = Store::new();
    let id = Identifier::from_value(9);
    let token = Identifier::from_value(10);
    let first = AgentInDb {
        id,
        token,
        name: "one".to_string(),
    };
    let second = AgentInDb {
        id,
        token,
        name: "two".to_string(),
    };

    assert!(store.insert_new(id, first).is_ok());
    assert!(matches!(
        store.insert_new(id, second),
        Err(StoreError::DuplicateId)
    ));
    assert_eq!(store.read(id).unwrap().name, "one");
    assert_eq!(store.len(), 1);
}

#[test]
fn update_replaces_the_whole_record() {
    let mut store: Store<AgentInDb> = Store::new();
    let id = Identifier::from_value(1);
    let old_record = AgentInDb {
        id,
        token: Identifier::from_value(2),
        name: "before".to_string(),
    };
    let new_record = AgentInDb {
        id,
        token: Identifier::from_value(3),
        name: "after".to_string(),
    };

    store.insert_new(id, old_record).unwrap();
    store.update(id, new_record).unwrap();
    let read_back = store.read(id).unwrap();
    assert_eq!(read_back.name, "after");
    assert_eq!(read_back.token, Identifier::from_value(3));
}

#[test]
fn delete_removes_the_record() {
    let mut store: Store<AgentInDb> = Store::new();
    let id = Identifier::from_value(5);
    store
        .insert_new(
            id,
            AgentInDb {
                id,
                token: Identifier::from_value(6),
                name: "gone".to_string(),
            },
        )
        .unwrap();
    store.delete(id).unwrap();
    assert!(matches!(store.read(id), Err(StoreError::UnknownId)));
    assert_eq!(store.len(), 0);
}

#[test]
fn read_all_agents_lists_every_record_in_creation_order() {
    let mut db = Db::new();
    let a = create_agent(
        &mut db,
        AgentCreateDto {
            name: "first".to_string(),
        },
    )
    .unwrap();
    let b = create_agent(
        &mut db,
        AgentCreateDto {
            name: "second".to_string(),
        },
    )
    .unwrap();

    let all = read_all_agents(&db).unwrap();
    assert_eq!(all.len(), 2);
    assert_eq!(all[0].id, a.id);
    assert_eq!(all[0].name, "first");
    assert_eq!(all[1].id, b.id);
    assert_eq!(all[1].name, "second");
}

#[test]
fn identifiers_increase_with_creation_order() {
    let mut gen = IdGen::new();
    let first = gen.next_id();
    let second = gen.next_id();
    let third = gen.next_id();
    assert!(first.value < second.value);
    assert!(second.value < third.value);
}

#[test]
fn canonical_bytes_sort_like_identifiers() {
    let mut gen = IdGen::new();
    let first = gen.next_id();
    let second = gen.next_id();
    assert!(first.to_bytes() < second.to_bytes());

    // Byte-lexicographic order is numeric order, also across byte borders.
    let small = Identifier::from_value(0x00ff).to_bytes();
    let large = Identifier::from_value(0x0100).to_bytes();
    assert!(small < large);
}

#[test]
fn canonical_bytes_are_big_endian() {
    let id = Identifier::from_value(0x0102_0304_0506_0708_090a_0b0c_0d0e_0f10);
    assert_eq!(
        id.to_bytes(),
        vec![1, 2, 3, 4, 5, 6, 7, 8, 9, 10, 11, 12, 13, 14, 15, 16]
    );
}

#[test]
fn agent_name_bound_is_in_bytes() {
    let mut db = Db::new();
    // 64 bytes pass.
    let ok = create_agent(
        &mut db,
        AgentCreateDto {
            name: "a".repeat(64),
        },
    );
    assert!(ok.is_ok());

    // 65 bytes fail.
    let too_long = create_agent(
        &mut db,
        AgentCreateDto {
            name: "a".repeat(65),
        },
    );
    match too_long.unwrap_err() {
        AppError::ValidationError(v) => assert_eq!(v.0, "name too long (must be <=64)"),
        _ => panic!("expected a validation error"),
    }

    // The bound is on code units, not characters: 33 two-byte characters
    // are 33 characters but 66 bytes.
    let multibyte = create_agent(
        &mut db,
        AgentCreateDto {
            name: "\u{e9}".repeat(33),
        },
    );
    assert!(multibyte.is_err());
}

#[test]
fn canonical_text_is_the_hyphenated_lowercase_hex_form() {
    let id = Identifier::from_value(0);
    assert_eq!(id.to_text(), "00000000-0000-0000-0000-000000000000");

    let id = Identifier::from_value(0x0191_2d68_7f3a_7cc0_89ab_cdef_0123_4567);
    assert_eq!(id.to_text(), "01912d68-7f3a-7cc0-89ab-cdef01234567");
}

#[test]
fn canonical_text_matches_the_uuid_rendering() {
    let mut gen = IdGen::new();
    for _ in 0..4 {
        let id = gen.next_id();
        assert_eq!(id.to_text(), uuid::Uuid::from_u128(id.value).to_string());
    }
}

#[test]
fn canonical_text_round_trips() {
    let mut gen = IdGen::new();
    let id = gen.next_id();
    let text = id.to_text();
    assert_eq!(Identifier::from_text(&text), Some(id));
}

#[test]
fn from_text_rejects_non_canonical_forms() {
    assert_eq!(Identifier::from_text(""), None);
    assert_eq!(
        Identifier::from_text("01912d68-7f3a-7cc0-89ab-cdef0123456"),
        None
    );
    assert_eq!(
        Identifier::from_text("01912d68x7f3a-7cc0-89ab-cdef01234567"),
        None
    );
    assert_eq!(
        Identifier::from_text("01912d68-7f3a-7cc0-89ab-cdef0123456g"),
        None
    );
    // The canonical form is lowercase.
    assert_eq!(
        Identifier::from_text("01912D68-7F3A-7CC0-89AB-CDEF01234567"),
        None
    );
}

#[test]
fn restoring_records_reestablishes_the_state() {
    let mut db = Db::new();
    let agent_id = Identifier::from_value(100);
    let task_id = Identifier::from_value(200);
    db.restore_agent(AgentInDb {
        id: agent_id,
        token: Identifier::from_value(101),
        name: "restored".to_string(),
    })
    .unwrap();
    db.restore_task(TaskInDb {
        id: task_id,
        name: "t".to_string(),
        task_json: encode_task_kind(&TaskTypeDto::SimpleTask {
            description: "d".to_string(),
        }),
        solution: "s".to_string(),
    })
    .unwrap();
    db.restore_completion(CompletionInDb {
        id: Identifier::from_value(300),
        task_id,
        agent_id,
        start_time: 9_000,
        completion_time: Some(9_500),
        best_time_in_ms: Some(500),
    })
    .unwrap();

    assert_eq!(read_agent(&db, agent_id).unwrap().name, "restored");

    // The generator was advanced past every restored identifier, so a fresh
    // record cannot collide with a restored one.
    let fresh = create_agent(
        &mut db,
        AgentCreateDto {
            name: "fresh".to_string(),
        },
    )
    .unwrap();
    assert!(fresh.id.value > 300);

    // The clock was advanced past the restored times, so a restarted timer
    // never runs backwards into them.
    let reopened = backend_rs::completion::open(&mut db, task_id, agent_id, 20_000);
    assert!(reopened.is_ok());
}

#[test]
fn restoring_rejects_duplicates_and_corrupt_records() {
    let mut db = Db::new();
    let agent_id = Identifier::from_value(1);
    let record = AgentInDb {
        id: agent_id,
        token: Identifier::from_value(2),
        name: "a".to_string(),
    };
    db.restore_agent(AgentInDb {
        id: agent_id,
        token: Identifier::from_value(2),
        name: "a".to_string(),
    })
    .unwrap();
    assert!(matches!(
        db.restore_agent(record),
        Err(StoreError::DuplicateId)
    ));

    // A task whose blob is not a valid payload encoding is corrupt.
    assert!(matches!(
        db.restore_task(TaskInDb {
            id: Identifier::from_value(3),
            name: "t".to_string(),
            task_json: "not an encoding".to_string(),
            solution: "s".to_string(),
        }),
        Err(StoreError::Serialization)
    ));

    // A completion whose recorded completion precedes its start is corrupt.
    assert!(matches!(
        db.restore_completion(CompletionInDb {
            id: Identifier::from_value(4),
            task_id: Identifier::from_value(5),
            agent_id,
            start_time: 100,
            completion_time: Some(50),
            best_time_in_ms: None,
        }),
        Err(StoreError::Serialization)
    ));

    // A second completion for the same (task, agent) pair is rejected.
    db.restore_completion(CompletionInDb {
        id: Identifier::from_value(6),
        task_id: Identifier::from_value(5),
        agent_id,
        start_time: 10,
        completion_time: None,
        best_time_in_ms: None,
    })
    .unwrap();
    assert!(matches!(
        db.restore_completion(CompletionInDb {
            id: Identifier::from_value(7),
            task_id: Identifier::from_value(5),
            agent_id,
            start_time: 20,
            completion_time: None,
            best_time_in_ms: None,
        }),
        Err(StoreError::DuplicateId)
    ));
}
