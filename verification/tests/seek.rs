use wr::progress::Statement;
use wr::seek::{SeekThePath, Visit};
use wr::verify::TestOutcome;
use wr::{ExerciseDefinition, OpenedExercise};

fn define(exercise: &str) -> ExerciseDefinition {
    ExerciseDefinition::new(b"01_a", exercise.as_bytes()).unwrap()
}

fn opened() -> Vec<OpenedExercise> {
    [("00_solved", true), ("01_gone", true), ("02_new", false), ("03_bad", false), ("04_late", false)]
        .iter()
        .map(|(exercise, solved)| OpenedExercise { definition: define(exercise), solved: *solved })
        .collect()
}

fn failure() -> TestOutcome {
    TestOutcome::Failure { command: "cargo".to_string(), details: b"no".to_vec() }
}

/// Walks with one exercise gone and one that fails; says what was closed and verified, and how
/// the walk ended.
fn walk(recheck: bool, bad: &str) -> (Vec<Statement>, Vec<String>, TestOutcome) {
    let mut walk = SeekThePath::new(opened(), recheck);
    let mut closed = Vec::new();
    let mut verified = Vec::new();
    loop {
        let Some(current) = walk.current() else {
            return (closed, verified, TestOutcome::Success);
        };
        let name = current.definition.exercise();
        match walk.visit(name != "01_gone") {
            Visit::Close(statement) => {
                closed.push(statement);
                walk.advance();
            }
            Visit::Skip => walk.advance(),
            Visit::Verify => {
                let outcome = if name == bad { failure() } else { TestOutcome::Success };
                verified.push(name);
                if let Some(ended) = walk.record(outcome) {
                    return (closed, verified, ended);
                }
            }
        }
    }
}

#[test]
fn a_walk_ends_with_the_first_failure() {
    let (closed, verified, outcome) = walk(false, "03_bad");
    assert_eq!(closed, [Statement::close(&define("01_gone"))]);
    assert_eq!(verified, ["02_new", "03_bad"]);
    assert_eq!(outcome, failure());
}

#[test]
fn a_walk_without_failures_succeeds() {
    let (closed, verified, outcome) = walk(false, "");
    assert_eq!(closed.len(), 1);
    assert_eq!(verified, ["02_new", "03_bad", "04_late"]);
    assert_eq!(outcome, TestOutcome::Success);
}

#[test]
fn solved_exercises_are_verified_again_on_request() {
    let (closed, verified, outcome) = walk(true, "00_solved");
    assert!(closed.is_empty());
    assert_eq!(verified, ["00_solved"]);
    assert_eq!(outcome, failure());
    assert_eq!(walk(true, "").1, ["00_solved", "02_new", "03_bad", "04_late"]);
}

#[test]
fn a_walk_over_nothing_succeeds() {
    assert!(SeekThePath::new(Vec::new(), true).current().is_none());
}
