//! The completion timer: open and submit, their state transitions, and the
//! best-time bookkeeping.

use backend_rs::agent::{create_agent, AgentCreateDto};
use backend_rs::check::{check_task, CheckTaskRequestDto};
use backend_rs::completion::{open, read_by, submit};
use backend_rs::db::Db;
use backend_rs::error::AppError;
use backend_rs::task::{create_task, read_task, AgentToken, TaskCreateDto, TaskTypeDto};
use backend_rs::types::Identifier;

fn seeded_db() -> (Db, Identifier, Identifier, Identifier) {
    let mut db = Db::new();
    let task_id = create_task(
        &mut db,
        TaskCreateDto {
            name: "T1".to_string(),
            taskType: TaskTypeDto::SimpleTask {
                description: "d".to_string(),
            },
            solution: "x".to_string(),
        },
    )
    .unwrap();
    let created = create_agent(
        &mut db,
        AgentCreateDto {
            name: "A1".to_string(),
        },
    )
    .unwrap();
    (db, task_id, created.id, created.token)
}

#[test]
fn open_twice_mutates_the_same_completion() {
    let (mut db, task_id, agent_id, _) = seeded_db();

    let first = open(&mut db, task_id, agent_id, 100).unwrap();
    assert_eq!(db.completions.read_all().len(), 1);

    let second = open(&mut db, task_id, agent_id, 250).unwrap();
    assert_eq!(second, first);
    assert_eq!(db.completions.read_all().len(), 1);

    let (_, c) = read_by(&db.completions, task_id, agent_id).unwrap();
    assert_eq!(c.start_time, 250);
    assert_eq!(c.completion_time, None);
}

#[test]
fn best_time_takes_the_minimum_over_attempts() {
    let (mut db, task_id, agent_id, _) = seeded_db();
    let solution = "x".to_string();

    // Elapsed times 5000, 3000, 4000 leave bests 5000, 3000, 3000.
    let mut expected = Vec::new();
    expected.push((0i64, 5000i64, 5000i64));
    expected.push((10_000, 13_000, 3000));
    expected.push((20_000, 24_000, 3000));
    for (opened_at, submitted_at, best) in expected {
        open(&mut db, task_id, agent_id, opened_at).unwrap();
        let correct = submit(&mut db, task_id, agent_id, &solution, &solution, submitted_at)
            .unwrap();
        assert!(correct);
        let (_, c) = read_by(&db.completions, task_id, agent_id).unwrap();
        assert_eq!(c.best_time_in_ms, Some(best));
        assert_eq!(c.completion_time, Some(submitted_at));
    }
}

#[test]
fn reopening_clears_completion_and_keeps_best() {
    let (mut db, task_id, agent_id, _) = seeded_db();
    let solution = "x".to_string();

    open(&mut db, task_id, agent_id, 0).unwrap();
    assert!(submit(&mut db, task_id, agent_id, &solution, &solution, 700).unwrap());

    open(&mut db, task_id, agent_id, 1000).unwrap();
    let (_, c) = read_by(&db.completions, task_id, agent_id).unwrap();
    assert_eq!(c.completion_time, None);
    assert_eq!(c.best_time_in_ms, Some(700));
    assert_eq!(c.start_time, 1000);
}

#[test]
fn matching_is_exact_with_no_normalization() {
    let (mut db, task_id, agent_id, _) = seeded_db();
    let canonical = "42".to_string();
    let trailing_space = "42 ".to_string();

    open(&mut db, task_id, agent_id, 0).unwrap();
    let correct = submit(&mut db, task_id, agent_id, &trailing_space, &canonical, 10).unwrap();
    assert!(!correct);

    // A wrong submission mutates nothing.
    let (_, c) = read_by(&db.completions, task_id, agent_id).unwrap();
    assert_eq!(c.completion_time, None);
    assert_eq!(c.best_time_in_ms, None);
    assert_eq!(c.start_time, 0);
}

#[test]
fn submit_without_open_fails_for_every_kind() {
    let mut db = Db::new();
    let created = create_agent(
        &mut db,
        AgentCreateDto {
            name: "A1".to_string(),
        },
    )
    .unwrap();
    let kinds = vec![
        TaskTypeDto::SimpleTask {
            description: "d".to_string(),
        },
        TaskTypeDto::AdventOfCodePartOne {
            description: "d".to_string(),
            input: "i".to_string(),
        },
        TaskTypeDto::AdventOfCodePartTwo {
            description: "d".to_string(),
            input: "i".to_string(),
        },
    ];
    for kind in kinds {
        let task_id = create_task(
            &mut db,
            TaskCreateDto {
                name: "t".to_string(),
                taskType: kind,
                solution: "s".to_string(),
            },
        )
        .unwrap();
        let err = check_task(
            &mut db,
            created.id,
            task_id,
            AgentToken {
                token: created.token,
            },
            CheckTaskRequestDto {
                solution: "s".to_string(),
            },
        )
        .unwrap_err();
        match err {
            AppError::ValidationError(v) => assert_eq!(v.0, "task not started"),
            _ => panic!("expected the task-not-started error"),
        }
    }
}

#[test]
fn end_to_end_scenario() {
    let (mut db, task_id, agent_id, _) = seeded_db();
    let canonical = "x".to_string();
    let wrong = "wrong".to_string();

    open(&mut db, task_id, agent_id, 0).unwrap();

    let first = submit(&mut db, task_id, agent_id, &wrong, &canonical, 600).unwrap();
    assert!(!first);
    let (_, c) = read_by(&db.completions, task_id, agent_id).unwrap();
    assert_eq!(c.completion_time, None);
    assert_eq!(c.best_time_in_ms, None);

    let second = submit(&mut db, task_id, agent_id, &canonical, &canonical, 1200).unwrap();
    assert!(second);
    let (_, c) = read_by(&db.completions, task_id, agent_id).unwrap();
    assert_eq!(c.completion_time, Some(1200));
    assert_eq!(c.best_time_in_ms, Some(1200));
}

#[test]
fn read_task_checks_token_and_opens_the_pair() {
    let (mut db, task_id, agent_id, token) = seeded_db();

    let wrong_token = AgentToken {
        token: Identifier::from_value(token.value ^ 1),
    };
    assert!(matches!(
        read_task(&mut db, agent_id, task_id, wrong_token),
        Err(AppError::Unauthorized)
    ));
    assert_eq!(db.completions.read_all().len(), 0);

    let dto = read_task(&mut db, agent_id, task_id, AgentToken { token }).unwrap();
    assert_eq!(dto.name, "T1");
    match dto.taskType {
        TaskTypeDto::SimpleTask { description } => assert_eq!(description, "d"),
        _ => panic!("expected the simple kind"),
    }
    assert_eq!(db.completions.read_all().len(), 1);
}

#[test]
fn check_task_runs_the_timer_on_the_real_clock() {
    let (mut db, task_id, agent_id, token) = seeded_db();

    read_task(&mut db, agent_id, task_id, AgentToken { token }).unwrap();
    let response = check_task(
        &mut db,
        agent_id,
        task_id,
        AgentToken { token },
        CheckTaskRequestDto {
            solution: "x".to_string(),
        },
    )
    .unwrap();
    assert!(response.correct);
    let (_, c) = read_by(&db.completions, task_id, agent_id).unwrap();
    assert!(c.completion_time.is_some());
    let best = c.best_time_in_ms.unwrap();
    assert!(best >= 0);
}

#[test]
fn check_task_reports_a_wrong_solution_without_completing() {
    let (mut db, task_id, agent_id, token) = seeded_db();

    read_task(&mut db, agent_id, task_id, AgentToken { token }).unwrap();
    let response = check_task(
        &mut db,
        agent_id,
        task_id,
        AgentToken { token },
        CheckTaskRequestDto {
            solution: "nope".to_string(),
        },
    )
    .unwrap();
    assert!(!response.correct);
    let (_, c) = read_by(&db.completions, task_id, agent_id).unwrap();
    assert_eq!(c.completion_time, None);
    assert_eq!(c.best_time_in_ms, None);
}

#[test]
fn repeated_correct_submissions_keep_improving_the_best() {
    let (mut db, task_id, agent_id, _) = seeded_db();
    let solution = "x".to_string();

    // No reopen between the submissions: the pair stays completed and can
    // still beat its own best time.
    open(&mut db, task_id, agent_id, 0).unwrap();
    assert!(submit(&mut db, task_id, agent_id, &solution, &solution, 4000).unwrap());
    let (_, c) = read_by(&db.completions, task_id, agent_id).unwrap();
    assert_eq!(c.best_time_in_ms, Some(4000));

    assert!(submit(&mut db, task_id, agent_id, &solution, &solution, 4500).unwrap());
    let (_, c) = read_by(&db.completions, task_id, agent_id).unwrap();
    // Elapsed is still measured from the one open at time zero.
    assert_eq!(c.completion_time, Some(4500));
    assert_eq!(c.best_time_in_ms, Some(4000));
}
