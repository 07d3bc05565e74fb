use wr::progress::{ProgressRow, Statement};
use wr::{ChapterDir, ExerciseCollection, ExerciseDefinition, Host, OpenError};

fn chapter(name: &str, entries: &[&str]) -> ChapterDir {
    ChapterDir {
        name: name.as_bytes().to_vec(),
        entries: entries.iter().map(|entry| entry.as_bytes().to_vec()).collect(),
    }
}

fn define(chapter: &str, exercise: &str) -> ExerciseDefinition {
    ExerciseDefinition::new(chapter.as_bytes(), exercise.as_bytes()).unwrap()
}

fn workshop() -> ExerciseCollection {
    ExerciseCollection::new(
        "exercises".to_string(),
        &vec![
            chapter("02_traits", &["01_boxes", "00_intro", "README.md"]),
            chapter("helpers", &["00_intro"]),
            chapter("01_basics", &["10_end", "02_syntax", "00_intro"]),
            chapter("03_empty", &[]),
        ],
    )
}

fn shown(exercises: &[ExerciseDefinition]) -> Vec<String> {
    exercises.iter().map(|exercise| exercise.to_string()).collect()
}

fn row(chapter: &str, exercise: &str, solved: i64) -> ProgressRow {
    ProgressRow { chapter: chapter.to_string(), exercise: exercise.to_string(), solved }
}

#[test]
fn exercises_are_listed_in_order() {
    assert_eq!(
        shown(workshop().iter()),
        [
            "(01) basics - (00) intro",
            "(01) basics - (02) syntax",
            "(01) basics - (10) end",
            "(02) traits - (00) intro",
            "(02) traits - (01) boxes",
        ],
    );
}

#[test]
fn the_order_of_the_directories_does_not_matter() {
    let other = ExerciseCollection::new(
        "exercises".to_string(),
        &vec![
            chapter("01_basics", &["00_intro", "10_end", "02_syntax"]),
            chapter("02_traits", &["00_intro", "01_boxes"]),
        ],
    );
    assert!(other.iter() == workshop().iter());
}

#[test]
fn the_same_exercise_is_listed_once() {
    let collection = ExerciseCollection::new(
        "exercises".to_string(),
        &vec![chapter("01_a", &["00_b", "01_x"]), chapter("x01_a", &["01_x", "y01_x"])],
    );
    assert_eq!(shown(collection.iter()), ["(01) a - (00) b", "(01) a - (01) x"]);
}

#[test]
fn exercises_with_the_same_numbers_stay_as_they_came() {
    let collection = ExerciseCollection::new(
        "exercises".to_string(),
        &vec![chapter("01_a", &["01_z", "00_second", "00_first", "01_y"])],
    );
    assert_eq!(
        shown(collection.iter()),
        ["(01) a - (00) second", "(01) a - (00) first", "(01) a - (01) z", "(01) a - (01) y"],
    );
}

#[test]
fn numbers_decide_whether_an_exercise_can_be_opened() {
    let renamed = define("01_basics", "02_renamed");
    assert!(workshop().contains(&renamed));
    assert_eq!(
        workshop().open(&renamed),
        Ok(Statement::Open {
            chapter: "01_basics".to_string(),
            exercise: "02_renamed".to_string(),
        }),
    );
}

#[test]
fn a_collection_may_be_empty() {
    let collection = ExerciseCollection::new("exercises".to_string(), &Vec::new());
    assert!(collection.iter().is_empty());
}

#[test]
fn directories_that_are_not_utf8_are_passed_over() {
    let mut odd = chapter("01_a", &["00_b"]);
    odd.entries.push(vec![0xff, 0xfe]);
    let mut dirs = vec![odd];
    dirs.push(ChapterDir { name: vec![0xff], entries: vec![b"00_b".to_vec()] });
    let collection = ExerciseCollection::checked_new("exercises".to_string(), &dirs).unwrap();
    assert_eq!(shown(collection.iter()), ["(01) a - (00) b"]);
}

#[test]
fn numbers_in_other_digits_make_no_collection() {
    let odd = vec![chapter("01_a", &["00_b", "٠١_c"])];
    assert!(ExerciseCollection::checked_new("exercises".to_string(), &odd).is_none());
    let odd = vec![chapter("٠١_a", &["00_b"])];
    assert!(ExerciseCollection::checked_new("exercises".to_string(), &odd).is_none());
    let fine = vec![chapter("٠١_a", &["b"])];
    assert!(ExerciseCollection::checked_new("exercises".to_string(), &fine).is_some());
}

#[test]
fn the_database_lies_beside_the_chapters() {
    assert_eq!(workshop().exercises_dir(), "exercises");
    assert_eq!(workshop().database_path(Host::current()), "exercises/progress.db");
}

#[test]
fn exercises_of_the_collection_can_be_opened() {
    let collection = workshop();
    assert_eq!(
        collection.open(&define("01_basics", "02_syntax")),
        Ok(Statement::Open {
            chapter: "01_basics".to_string(),
            exercise: "02_syntax".to_string(),
        }),
    );
}

#[test]
fn other_exercises_cannot_be_opened() {
    let collection = workshop();
    let missing = define("01_basics", "03_more");
    assert!(!collection.contains(&missing));
    assert_eq!(collection.open(&missing), Err(OpenError::NotInCollection));
    assert!(collection.contains(&define("01_basics", "02_syntax")));
}

#[test]
fn statements_name_the_exercise() {
    let collection = workshop();
    let exercise = define("02_traits", "01_boxes");
    let names = ["02_traits".to_string(), "01_boxes".to_string()];
    for statement in [
        collection.close(&exercise),
        collection.mark_as_solved(&exercise),
        collection.mark_as_unsolved(&exercise),
    ] {
        assert_eq!(statement.params(), names);
    }
    assert_eq!(collection.n_opened(), Statement::CountOpened);
}

#[test]
fn rows_give_the_opened_exercises() {
    let rows = vec![row("02_traits", "00_intro", 0), row("01_basics", "02_syntax", 1)];
    let opened = workshop().opened(&rows).unwrap();
    assert_eq!(opened.len(), 2);
    assert_eq!(opened[0].definition.to_string(), "(01) basics - (02) syntax");
    assert!(opened[0].solved);
    assert_eq!(opened[1].definition.to_string(), "(02) traits - (00) intro");
    assert!(!opened[1].solved);
}

#[test]
fn a_row_that_names_no_exercise_is_noticed() {
    assert!(workshop().opened(&vec![row("basics", "00_intro", 0)]).is_none());
    assert!(workshop().opened(&vec![row("01_basics", "٠١_x", 0)]).is_none());
    assert!(workshop().opened(&Vec::new()).unwrap().is_empty());
}

#[test]
fn what_is_not_opened_is_left() {
    let collection = workshop();
    let rows = vec![row("01_basics", "00_intro", 1), row("02_traits", "00_intro", 0)];
    let opened = collection.opened(&rows).unwrap();
    assert_eq!(
        shown(&collection.unopened(&opened)),
        ["(01) basics - (02) syntax", "(01) basics - (10) end", "(02) traits - (01) boxes"],
    );
}
