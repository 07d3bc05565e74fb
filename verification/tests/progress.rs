use rusqlite::{params_from_iter, Connection};
use wr::next::NextStep;
use wr::progress::{checked_opened_exercises, opened_exercises, ProgressRow, Statement};
use wr::seek::{SeekThePath, Visit};
use wr::verify::{record_outcome, TestOutcome};
use wr::{ChapterDir, ExerciseCollection, ExerciseDefinition, OpenedExercise};

fn define(chapter: &str, exercise: &str) -> ExerciseDefinition {
    ExerciseDefinition::new(chapter.as_bytes(), exercise.as_bytes()).unwrap()
}

fn row(chapter: &str, exercise: &str, solved: i64) -> ProgressRow {
    ProgressRow { chapter: chapter.to_string(), exercise: exercise.to_string(), solved }
}

fn database() -> Connection {
    let database = Connection::open_in_memory().unwrap();
    run(&database, &Statement::CreateTable);
    database
}

fn run(database: &Connection, statement: &Statement) {
    database.execute(statement.sql(), params_from_iter(statement.params())).unwrap();
}

fn rows(database: &Connection) -> Vec<ProgressRow> {
    let mut query = database.prepare(Statement::ListOpened.sql()).unwrap();
    let found = query
        .query_map([], |row| {
            Ok(ProgressRow {
                chapter: row.get(0).unwrap(),
                exercise: row.get(1).unwrap(),
                solved: row.get(2).unwrap(),
            })
        })
        .unwrap();
    found.map(|row| row.unwrap()).collect()
}

fn opened(database: &Connection) -> Vec<OpenedExercise> {
    checked_opened_exercises(&rows(database)).unwrap()
}

fn count(database: &Connection) -> i64 {
    database.query_row(Statement::CountOpened.sql(), [], |row| row.get(0)).unwrap()
}

#[test]
fn opening_adds_an_unsolved_row_once() {
    let database = database();
    let exercise = define("01_a", "00_b");
    run(&database, &Statement::open(&exercise));
    assert_eq!(rows(&database), [row("01_a", "00_b", 0)]);
    run(&database, &Statement::mark_as_solved(&exercise));
    run(&database, &Statement::open(&exercise));
    assert_eq!(rows(&database), [row("01_a", "00_b", 1)]);
}

#[test]
fn closing_undoes_opening() {
    let database = database();
    let kept = define("01_a", "01_c");
    let exercise = define("01_a", "00_b");
    run(&database, &Statement::open(&kept));
    run(&database, &Statement::open(&exercise));
    assert_eq!(count(&database), 2);
    run(&database, &Statement::close(&exercise));
    run(&database, &Statement::close(&exercise));
    assert_eq!(rows(&database), [row("01_a", "01_c", 0)]);
    assert!(opened(&database).iter().all(|one| one.definition != exercise));
}

#[test]
fn the_last_mark_stays() {
    let database = database();
    let exercise = define("01_a", "00_b");
    run(&database, &Statement::mark_as_solved(&exercise));
    assert_eq!(rows(&database), []);
    run(&database, &Statement::open(&exercise));
    run(&database, &Statement::mark_as_solved(&exercise));
    assert!(opened(&database)[0].solved);
    run(&database, &Statement::mark_as_unsolved(&exercise));
    assert!(!opened(&database)[0].solved);
}

#[test]
fn other_exercises_stay_as_they_are() {
    let database = database();
    let other = define("01_a", "01_c");
    let exercise = define("01_a", "00_b");
    run(&database, &Statement::open(&other));
    run(&database, &Statement::mark_as_solved(&other));
    for statement in [
        Statement::open(&exercise),
        Statement::mark_as_solved(&exercise),
        Statement::mark_as_unsolved(&exercise),
        Statement::close(&exercise),
    ] {
        run(&database, &statement);
        assert!(rows(&database).contains(&row("01_a", "01_c", 1)));
    }
}

#[test]
fn the_table_is_made_once() {
    let database = database();
    run(&database, &Statement::open(&define("01_a", "00_b")));
    run(&database, &Statement::CreateTable);
    assert_eq!(count(&database), 1);
}

#[test]
fn rows_are_counted() {
    let database = database();
    assert_eq!(count(&database), 0);
    for exercise in ["00_a", "01_b", "02_c"] {
        run(&database, &Statement::open(&define("01_a", exercise)));
    }
    assert_eq!(count(&database), 3);
    assert_eq!(opened(&database).len(), 3);
    // Two exercises with the same numbers are two rows, and two opened exercises.
    run(&database, &Statement::open(&define("01_a", "02_d")));
    assert_eq!(count(&database), 4);
    assert_eq!(opened(&database).len(), 4);
}

#[test]
fn what_was_opened_is_read_back() {
    let database = database();
    for (chapter, exercise) in [("02_b", "00_x"), ("01_引言", "07_y"), ("01_引言", "00_z")] {
        run(&database, &Statement::open(&define(chapter, exercise)));
    }
    run(&database, &Statement::mark_as_solved(&define("01_引言", "07_y")));
    let opened = opened(&database);
    let shown: Vec<(String, bool)> =
        opened.iter().map(|one| (one.definition.to_string(), one.solved)).collect();
    assert_eq!(
        shown,
        [
            ("(01) 引言 - (00) z".to_string(), false),
            ("(01) 引言 - (07) y".to_string(), true),
            ("(02) b - (00) x".to_string(), false),
        ],
    );
}

#[test]
fn any_number_but_zero_means_solved() {
    let opened = opened_exercises(&vec![
        row("01_a", "00_b", 0),
        row("01_a", "01_b", 1),
        row("01_a", "02_b", -7),
    ]);
    let solved: Vec<bool> = opened.iter().map(|one| one.solved).collect();
    assert_eq!(solved, [false, true, true]);
}

#[test]
fn opening_what_comes_next_uses_up_the_collection() {
    let database = database();
    let dir = ChapterDir {
        name: b"01_a".to_vec(),
        entries: vec![b"01_y".to_vec(), b"00_x".to_vec(), b"02_gone".to_vec(), b"03_z".to_vec()],
    };
    let collection = ExerciseCollection::new("exercises".to_string(), &vec![dir]);
    let mut order = Vec::new();
    loop {
        let mut search = collection.next(&opened(&database));
        let mut next = None;
        while let Some(candidate) = search.candidate() {
            let present = candidate.exercise() != "02_gone";
            match search.report(present) {
                NextStep::Found(exercise) => {
                    next = Some(exercise);
                    break;
                }
                NextStep::Close(statement) => {
                    let before = rows(&database);
                    run(&database, &statement);
                    assert_eq!(rows(&database), before);
                }
            }
        }
        let Ok((exercise, statement)) = collection.open_next(next) else {
            break;
        };
        run(&database, &statement);
        order.push(exercise.exercise());
    }
    assert_eq!(order, ["00_x", "01_y", "03_z"]);
}

#[test]
fn outcomes_are_remembered() {
    let database = database();
    let exercise = define("01_a", "00_b");
    run(&database, &Statement::open(&exercise));
    run(&database, &record_outcome(&exercise, &TestOutcome::Success));
    assert_eq!(SeekThePath::new(opened(&database), false).visit(true), Visit::Skip);
    assert_eq!(SeekThePath::new(opened(&database), true).visit(true), Visit::Verify);
    let failure = TestOutcome::Failure { command: "cargo".to_string(), details: Vec::new() };
    run(&database, &record_outcome(&exercise, &failure));
    assert_eq!(SeekThePath::new(opened(&database), false).visit(true), Visit::Verify);
}

/// Walks over the opened exercises, with one gone and one that may fail.
fn walk(database: &Connection, bad: &str) {
    let mut walk = SeekThePath::new(opened(database), false);
    while let Some(current) = walk.current() {
        let exercise = current.definition.clone();
        match walk.visit(exercise.exercise() != "01_gone") {
            Visit::Close(statement) => {
                run(database, &statement);
                walk.advance();
            }
            Visit::Skip => walk.advance(),
            Visit::Verify => {
                let outcome = if exercise.exercise() == bad {
                    TestOutcome::Failure { command: "cargo".to_string(), details: Vec::new() }
                } else {
                    TestOutcome::Success
                };
                run(database, &record_outcome(&exercise, &outcome));
                if walk.record(outcome).is_some() {
                    return;
                }
            }
        }
    }
}

fn four_opened() -> Connection {
    let database = database();
    for exercise in ["00_a", "01_gone", "02_b", "03_c"] {
        run(&database, &Statement::open(&define("01_a", exercise)));
    }
    run(&database, &Statement::mark_as_solved(&define("01_a", "00_a")));
    database
}

#[test]
fn a_walk_that_succeeds_leaves_what_exists_as_solved() {
    let database = four_opened();
    walk(&database, "");
    assert_eq!(
        rows(&database),
        [row("01_a", "00_a", 1), row("01_a", "02_b", 1), row("01_a", "03_c", 1)],
    );
}

#[test]
fn a_walk_that_fails_leaves_what_comes_later() {
    let database = four_opened();
    walk(&database, "02_b");
    assert_eq!(
        rows(&database),
        [row("01_a", "00_a", 1), row("01_a", "02_b", 0), row("01_a", "03_c", 0)],
    );
}

#[test]
fn opened_exercises_with_the_same_numbers_are_all_visited() {
    let database = database();
    for exercise in ["01_gone", "01_new"] {
        run(&database, &Statement::open(&define("01_a", exercise)));
    }
    walk(&database, "");
    assert_eq!(rows(&database), [row("01_a", "01_new", 1)]);
}

#[test]
fn opening_the_next_exercise_adds_it_as_unsolved() {
    let database = database();
    let dir = ChapterDir {
        name: b"01_a".to_vec(),
        entries: vec![b"00_x".to_vec(), b"01_y".to_vec()],
    };
    let collection = ExerciseCollection::new("exercises".to_string(), &vec![dir]);
    run(&database, &Statement::open(&define("01_a", "00_x")));
    run(&database, &Statement::mark_as_solved(&define("01_a", "00_x")));
    let (exercise, statement) = collection.open_next(Some(define("01_a", "01_y"))).unwrap();
    run(&database, &statement);
    assert_eq!(exercise.exercise(), "01_y");
    assert_eq!(count(&database), 2);
    assert_eq!(rows(&database), [row("01_a", "00_x", 1), row("01_a", "01_y", 0)]);
    assert!(collection.next(&opened(&database)).candidate().is_none());
    assert!(collection.open_next(None).is_err());
    assert_eq!(count(&database), 2);
}
