use wr::session::{next_action, parse_bool, SessionAction, SessionEvent};
use wr::verify::TestOutcome;
use wr::ExerciseDefinition;

fn exercise() -> ExerciseDefinition {
    ExerciseDefinition::new(b"01_a", b"00_b").unwrap()
}

fn failure() -> TestOutcome {
    TestOutcome::Failure { command: "cargo".to_string(), details: b"no".to_vec() }
}

#[test]
fn a_failure_ends_the_session() {
    for keep_going in [false, true] {
        for event in [SessionEvent::Sought(failure()), SessionEvent::Verified(failure())] {
            let action = next_action(keep_going, event);
            assert_eq!(action.exit_code(), Some(1));
            match action {
                SessionAction::ShowFailure { command, details } => {
                    assert_eq!(command, "cargo");
                    assert_eq!(details, b"no");
                }
                _ => panic!("the verification failed"),
            }
        }
    }
}

#[test]
fn the_next_exercise_is_looked_for_after_a_success() {
    for keep_going in [false, true] {
        let action = next_action(keep_going, SessionEvent::Sought(TestOutcome::Success));
        assert!(matches!(action, SessionAction::FindNext));
        assert_eq!(action.exit_code(), None);
    }
    let action = next_action(true, SessionEvent::Verified(TestOutcome::Success));
    assert!(matches!(action, SessionAction::FindNext));
}

#[test]
fn the_user_is_asked_once() {
    match next_action(false, SessionEvent::Next(Some(exercise()))) {
        SessionAction::Ask(asked) => assert!(asked == exercise()),
        _ => panic!("the user is to be asked"),
    }
    let action = next_action(false, SessionEvent::Answered(true));
    assert!(matches!(action, SessionAction::OpenNext));
    let action = next_action(false, SessionEvent::Answered(false));
    assert!(matches!(action, SessionAction::Stop));
    assert_eq!(action.exit_code(), Some(0));
    let action = next_action(false, SessionEvent::Opened(exercise()));
    assert_eq!(action.exit_code(), Some(0));
    match action {
        SessionAction::ShowOpened(shown) => assert!(shown == exercise()),
        _ => panic!("the exercise was opened"),
    }
}

#[test]
fn nobody_is_asked_where_the_session_keeps_going() {
    let action = next_action(true, SessionEvent::Next(Some(exercise())));
    assert!(matches!(action, SessionAction::OpenNext));
    match next_action(true, SessionEvent::Opened(exercise())) {
        SessionAction::Verify(opened) => assert!(opened == exercise()),
        _ => panic!("the exercise is to be verified"),
    }
}

#[test]
fn the_session_ends_where_nothing_is_left() {
    for keep_going in [false, true] {
        let action = next_action(keep_going, SessionEvent::Next(None));
        assert!(matches!(action, SessionAction::ShowAllDone));
        assert_eq!(action.exit_code(), Some(0));
    }
}

#[test]
fn answers_are_understood() {
    for answer in ["yes", "y", "YES", "Yes", "Y", "是"] {
        assert_eq!(parse_bool(answer), Some(true));
    }
    for answer in ["no", "n", "NO", "nO", "N", "否"] {
        assert_eq!(parse_bool(answer), Some(false));
    }
    for answer in ["", " y", "yes!", "yep", "是的", "ｙ", "0"] {
        assert_eq!(parse_bool(answer), None);
    }
}
