use wr::{ChapterDir, ExerciseCollection};

fn collection() -> ExerciseCollection {
    let dir = ChapterDir {
        name: b"01_a".to_vec(),
        entries: vec![b"02_z".to_vec(), b"00_x".to_vec(), b"01_y".to_vec()],
    };
    ExerciseCollection::new("exercises".to_string(), &vec![dir])
}

/// The exercise that a search finds, and those that it looked at.
fn find(here: &[&str]) -> (Option<String>, Vec<String>) {
    let collection = collection();
    let mut search = collection.locate();
    let mut seen = Vec::new();
    while let Some(candidate) = search.candidate() {
        let name = candidate.exercise();
        seen.push(name.clone());
        if let Some(found) = search.report(here.contains(&name.as_str())) {
            return (Some(found.exercise()), seen);
        }
    }
    (None, seen)
}

#[test]
fn the_first_exercise_that_lies_here_is_located() {
    let (found, seen) = find(&["01_y", "02_z"]);
    assert_eq!(found.as_deref(), Some("01_y"));
    assert_eq!(seen, ["00_x", "01_y"]);
}

#[test]
fn elsewhere_no_exercise_is_located() {
    let (found, seen) = find(&[]);
    assert_eq!(found, None);
    assert_eq!(seen, ["00_x", "01_y", "02_z"]);
}
