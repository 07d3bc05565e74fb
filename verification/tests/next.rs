use wr::next::NextStep;
use wr::progress::Statement;
use wr::{ChapterDir, ExerciseCollection, ExerciseDefinition, OpenError, OpenedExercise};

fn define(exercise: &str) -> ExerciseDefinition {
    ExerciseDefinition::new(b"01_a", exercise.as_bytes()).unwrap()
}

fn collection() -> ExerciseCollection {
    let dir = ChapterDir {
        name: b"01_a".to_vec(),
        entries: vec![b"02_z".to_vec(), b"00_x".to_vec(), b"01_y".to_vec()],
    };
    ExerciseCollection::new("exercises".to_string(), &vec![dir])
}

fn opened(exercises: &[&str]) -> Vec<OpenedExercise> {
    exercises
        .iter()
        .map(|exercise| OpenedExercise { definition: define(exercise), solved: false })
        .collect()
}

#[test]
fn the_first_exercise_that_exists_is_next() {
    let mut search = collection().next(&opened(&["00_x"]));
    assert_eq!(search.candidate().unwrap().exercise(), "01_y");
    match search.report(true) {
        NextStep::Found(exercise) => assert_eq!(exercise.exercise(), "01_y"),
        NextStep::Close(_) => panic!("the exercise exists"),
    }
}

#[test]
fn exercises_that_are_gone_are_closed() {
    let mut search = collection().next(&opened(&["01_y"]));
    match search.report(false) {
        NextStep::Found(_) => panic!("the exercise is gone"),
        NextStep::Close(statement) => assert_eq!(statement, Statement::close(&define("00_x"))),
    }
    assert_eq!(search.candidate().unwrap().exercise(), "02_z");
    assert!(matches!(search.report(true), NextStep::Found(_)));
}

#[test]
fn a_search_may_find_nothing() {
    let mut search = collection().next(&opened(&["00_x", "01_y"]));
    assert!(matches!(search.report(false), NextStep::Close(_)));
    assert!(search.candidate().is_none());
    let search = collection().next(&opened(&["00_x", "01_y", "02_z"]));
    assert!(search.candidate().is_none());
}

#[test]
fn an_exercise_that_was_renamed_is_not_next() {
    let search = collection().next(&opened(&["00_renamed"]));
    assert_eq!(search.candidate().unwrap().exercise(), "01_y");
}

#[test]
fn exercises_with_the_same_numbers_are_all_offered() {
    let dir = ChapterDir {
        name: b"01_a".to_vec(),
        entries: vec![b"00_x".to_vec(), b"00_w".to_vec(), b"01_y".to_vec()],
    };
    let collection = ExerciseCollection::new("exercises".to_string(), &vec![dir]);
    let candidate = |names: &[&str]| {
        collection.next(&opened(names)).candidate().map(|exercise| exercise.exercise())
    };
    assert_eq!(candidate(&[]).as_deref(), Some("00_x"));
    assert_eq!(candidate(&["00_x"]).as_deref(), Some("00_w"));
    assert_eq!(candidate(&["00_w"]).as_deref(), Some("00_x"));
    assert_eq!(candidate(&["00_x", "00_w"]).as_deref(), Some("01_y"));
}

#[test]
fn the_next_exercise_is_opened() {
    let (exercise, statement) = collection().open_next(Some(define("01_y"))).unwrap();
    assert_eq!(exercise.exercise(), "01_y");
    assert_eq!(statement, Statement::open(&define("01_y")));
}

#[test]
fn nothing_is_opened_where_nothing_is_left() {
    assert_eq!(collection().open_next(None).err(), Some(OpenError::NothingLeft));
    assert_eq!(
        collection().open_next(Some(define("09_other"))).err(),
        Some(OpenError::NotInCollection),
    );
}
