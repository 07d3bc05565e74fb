use std::cmp::Ordering;
use wr::{ExerciseDefinition, Host, NameError, NameFault, NameKind, OpenedExercise};

fn define(chapter: &str, exercise: &str) -> ExerciseDefinition {
    ExerciseDefinition::checked_new(chapter.as_bytes(), exercise.as_bytes())
        .expect("the numbers are ASCII")
        .expect("the names fit")
}

fn fault(chapter: &[u8], exercise: &[u8]) -> NameError {
    match ExerciseDefinition::new(chapter, exercise) {
        Ok(_) => panic!("the names fit"),
        Err(error) => error,
    }
}

#[test]
fn names_give_a_definition() {
    let definition = ExerciseDefinition::new(b"01_intro", b"02_syntax").ok().unwrap();
    assert_eq!(definition.chapter(), "01_intro");
    assert_eq!(definition.exercise(), "02_syntax");
    assert_eq!(definition.chapter_number(), 1);
    assert_eq!(definition.exercise_number(), 2);
    assert_eq!(definition.to_string(), "(01) intro - (02) syntax");
}

#[test]
fn numbers_may_have_two_places() {
    let definition = define("99_end", "10_last_one");
    assert_eq!(definition.chapter_number(), 99);
    assert_eq!(definition.exercise_number(), 10);
    assert_eq!(definition.chapter(), "99_end");
    assert_eq!(definition.exercise(), "10_last_one");
    assert_eq!(definition.to_string(), "(99) end - (10) last_one");
}

#[test]
fn the_first_fitting_part_of_a_name_counts() {
    // The pattern may start anywhere, and the name ends where the word ends.
    let definition = define("old-07_traits-and-more", "123_boxes");
    assert_eq!(definition.chapter(), "07_traits");
    assert_eq!(definition.exercise(), "23_boxes");
    let definition = define("01_a 02_b", "1_2_03_c");
    assert_eq!(definition.chapter(), "01_a");
    assert_eq!(definition.exercise(), "03_c");
    let definition = define("01_02_x", "00__y");
    assert_eq!(definition.chapter(), "01_02_x");
    assert_eq!(definition.exercise(), "00__y");
}

#[test]
fn names_may_be_of_any_script() {
    let definition = define("01_引言", "02_основы");
    assert_eq!(definition.chapter(), "01_引言");
    assert_eq!(definition.exercise(), "02_основы");
    assert_eq!(definition.to_string(), "(01) 引言 - (02) основы");
    assert_eq!(define("01_a🍂b", "02_c").chapter(), "01_a");
}

#[test]
fn digits_of_other_scripts_are_not_read() {
    assert!(ExerciseDefinition::checked_new("٠١_a".as_bytes(), b"00_b").is_none());
    assert!(ExerciseDefinition::checked_new(b"01_a", "００_b".as_bytes()).is_none());
    // The chapter's number is not read where the exercise's name does not fit.
    assert_eq!(
        ExerciseDefinition::checked_new("٠١_a".as_bytes(), b"b"),
        Some(Err(NameError { kind: NameKind::Exercise, fault: NameFault::NoMatch })),
    );
}

#[test]
fn names_that_do_not_fit_are_refused() {
    let no_exercise = NameError { kind: NameKind::Exercise, fault: NameFault::NoMatch };
    let no_chapter = NameError { kind: NameKind::Chapter, fault: NameFault::NoMatch };
    assert_eq!(fault(b"01_intro", b"Cargo.toml"), no_exercise);
    assert_eq!(fault(b"01_intro", b"1_syntax"), no_exercise);
    assert_eq!(fault(b"01_intro", b"01-syntax"), no_exercise);
    assert_eq!(fault(b"01_intro", b"01_"), no_exercise);
    assert_eq!(fault(b"01_intro", b""), no_exercise);
    assert_eq!(fault(b"intro", b"00_syntax"), no_chapter);
    // The exercise's name is looked at first.
    assert_eq!(fault(b"intro", b"syntax"), no_exercise);
}

#[test]
fn names_that_are_not_utf8_are_refused() {
    assert_eq!(
        fault(b"01_intro", b"00_\xff"),
        NameError { kind: NameKind::Exercise, fault: NameFault::NotUtf8 },
    );
    assert_eq!(
        fault(b"01_\xff", b"00_a"),
        NameError { kind: NameKind::Chapter, fault: NameFault::NotUtf8 },
    );
    assert_eq!(
        ExerciseDefinition::checked_new(b"\xff", b"\xfe"),
        Some(Err(NameError { kind: NameKind::Exercise, fault: NameFault::NotUtf8 })),
    );
}

#[test]
fn written_names_define_the_same_exercise() {
    let names = [("x01_a-b", "00_b"), ("07_引言", "099_c d"), ("99_z9_", "45_Q")];
    for (chapter, exercise) in names {
        let definition = define(chapter, exercise);
        let again = define(&definition.chapter(), &definition.exercise());
        assert!(definition == again);
        assert_eq!(definition.chapter(), again.chapter());
        assert_eq!(definition.exercise(), again.exercise());
    }
}

#[test]
fn different_exercises_are_written_differently() {
    let a = define("01_a", "00_b");
    for other in [define("01_a", "00_c"), define("01_b", "00_b"), define("02_a", "00_b")] {
        assert!(a != other);
        assert!((a.chapter(), a.exercise()) != (other.chapter(), other.exercise()));
    }
}

#[test]
fn paths_lie_inside_each_other() {
    let host = Host::current();
    let definition = define("01_intro", "02_syntax");
    assert_eq!(definition.manifest_folder_path("exercises", host), "exercises/01_intro/02_syntax");
    assert_eq!(definition.manifest_path("exercises", host), "exercises/01_intro/02_syntax/Cargo.toml");
    assert_eq!(definition.config_path("exercises", host), "exercises/01_intro/02_syntax/.wr.toml");
    assert_eq!(definition.manifest_path("../", host), "../01_intro/02_syntax/Cargo.toml");
    assert_eq!(definition.manifest_path("", host), "01_intro/02_syntax/Cargo.toml");
}

#[test]
fn paths_are_those_of_std() {
    let host = Host::current();
    let definition = define("01_intro", "02_syntax");
    for dir in ["", "/", "exercises", "../", "a/b", "/a/b/"] {
        let folder = std::path::Path::new(dir).join("01_intro").join("02_syntax");
        assert_eq!(definition.manifest_folder_path(dir, host), folder.to_str().unwrap());
        let manifest = folder.join("Cargo.toml");
        assert_eq!(definition.manifest_path(dir, host), manifest.to_str().unwrap());
        assert_eq!(manifest.parent().unwrap().to_str().unwrap(), folder.to_str().unwrap());
    }
}

#[test]
fn exercises_are_ordered_by_their_numbers() {
    let a = define("01_z", "09_z");
    let b = define("02_a", "00_a");
    let c = define("02_a", "01_a");
    assert_eq!(a.partial_cmp(&b), Some(Ordering::Less));
    assert_eq!(c.partial_cmp(&b), Some(Ordering::Greater));
    assert_eq!(a.partial_cmp(&c), Some(Ordering::Less));
    assert!(a < b && b < c);
}

#[test]
fn names_do_not_matter_for_the_order() {
    let a = define("01_a", "00_b");
    let b = define("01_x", "00_y");
    assert_eq!(a.partial_cmp(&b), Some(Ordering::Equal));
    assert!(a != b);
}

#[test]
fn opened_exercises_compare_by_their_definitions() {
    let a = OpenedExercise { definition: define("01_a", "00_b"), solved: true };
    let b = OpenedExercise { definition: define("01_a", "00_b"), solved: false };
    let c = OpenedExercise { definition: define("01_a", "01_b"), solved: true };
    assert!(a != b);
    assert!(a == a.clone());
    assert_eq!(a.partial_cmp(&b), Some(Ordering::Equal));
    assert_eq!(a.partial_cmp(&c), Some(Ordering::Less));
    let definition = define("01_a", "00_b");
    assert!(definition == a);
    assert!(definition == b);
    assert!(definition != c);
    assert!(definition < c);
    assert_eq!(definition.partial_cmp(&b), Some(Ordering::Equal));
}
