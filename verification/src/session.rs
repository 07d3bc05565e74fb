use vstd::prelude::*;

use crate::definition;
use crate::definition::ExerciseDefinition;
use crate::text;
use crate::verify;
use crate::verify::TestOutcome;

verus! {

/// What has happened in a session.
#[derive(Debug)]
pub enum SessionEvent {
    /// The walk over the opened exercises has ended.
    Sought(TestOutcome),
    /// The search for the next exercise has ended.
    Next(Option<ExerciseDefinition>),
    /// The user has said whether to open the next exercise.
    Answered(bool),
    /// The next exercise was opened.
    Opened(ExerciseDefinition),
    /// The exercise that was just opened was verified.
    Verified(TestOutcome),
}

/// What a [`SessionEvent`] says.
#[verifier::ext_equal]
pub enum EventView {
    Sought(verify::OutcomeView),
    Next(Option<definition::DefinitionView>),
    Answered(bool),
    Opened(definition::DefinitionView),
    Verified(verify::OutcomeView),
}

impl View for SessionEvent {
    type V = EventView;

    open spec fn view(&self) -> EventView {
        match self {
            SessionEvent::Sought(outcome) => EventView::Sought(outcome@),
            SessionEvent::Next(next) => EventView::Next(
                match next {
                    Some(exercise) => Some(exercise@),
                    None => None,
                },
            ),
            SessionEvent::Answered(yes) => EventView::Answered(*yes),
            SessionEvent::Opened(exercise) => EventView::Opened(exercise@),
            SessionEvent::Verified(outcome) => EventView::Verified(outcome@),
        }
    }
}

/// What is to be done next in a session.
#[derive(Debug)]
pub enum SessionAction {
    /// Search for the next exercise.
    FindNext,
    /// Ask whether to open this exercise.
    Ask(ExerciseDefinition),
    /// Open the next exercise.
    OpenNext,
    /// Verify this exercise.
    Verify(ExerciseDefinition),
    /// Say that this exercise was opened, and end the session.
    ShowOpened(ExerciseDefinition),
    /// Say which command failed, and end the session with a failure.
    ShowFailure { command: String, details: Vec<u8> },
    /// Say that there is nothing left to do, and end the session.
    ShowAllDone,
    /// End the session.
    Stop,
}

/// What a [`SessionAction`] says.
#[verifier::ext_equal]
pub enum ActionView {
    FindNext,
    Ask(definition::DefinitionView),
    OpenNext,
    Verify(definition::DefinitionView),
    ShowOpened(definition::DefinitionView),
    ShowFailure { command: Seq<char>, details: Seq<u8> },
    ShowAllDone,
    Stop,
}

impl View for SessionAction {
    type V = ActionView;

    open spec fn view(&self) -> ActionView {
        match self {
            SessionAction::FindNext => ActionView::FindNext,
            SessionAction::Ask(exercise) => ActionView::Ask(exercise@),
            SessionAction::OpenNext => ActionView::OpenNext,
            SessionAction::Verify(exercise) => ActionView::Verify(exercise@),
            SessionAction::ShowOpened(exercise) => ActionView::ShowOpened(exercise@),
            SessionAction::ShowFailure { command, details } => ActionView::ShowFailure {
                command: command@,
                details: details@,
            },
            SessionAction::ShowAllDone => ActionView::ShowAllDone,
            SessionAction::Stop => ActionView::Stop,
        }
    }
}

/// What follows a verification: the search for the next exercise, or the end.
pub open spec fn after_verification(outcome: verify::OutcomeView) -> ActionView {
    match outcome {
        verify::OutcomeView::Success => ActionView::FindNext,
        verify::OutcomeView::Failure { command, details } => ActionView::ShowFailure {
            command,
            details,
        },
    }
}

/// What is done after an event. With `keep_going`, exercises are opened and verified without
/// asking, for as long as they pass; otherwise the user is asked once.
pub open spec fn action_after(keep_going: bool, event: EventView) -> ActionView {
    match event {
        EventView::Sought(outcome) => after_verification(outcome),
        EventView::Next(None) => ActionView::ShowAllDone,
        EventView::Next(Some(exercise)) => if keep_going {
            ActionView::OpenNext
        } else {
            ActionView::Ask(exercise)
        },
        EventView::Answered(yes) => if yes {
            ActionView::OpenNext
        } else {
            ActionView::Stop
        },
        EventView::Opened(exercise) => if keep_going {
            ActionView::Verify(exercise)
        } else {
            ActionView::ShowOpened(exercise)
        },
        EventView::Verified(outcome) => after_verification(outcome),
    }
}

impl ActionView {
    /// The exit code of a session that ends with this action.
    pub open spec fn exit_code(self) -> Option<int> {
        match self {
            ActionView::ShowOpened(_) => Some(0),
            ActionView::ShowFailure { .. } => Some(1),
            ActionView::ShowAllDone => Some(0),
            ActionView::Stop => Some(0),
            _ => None,
        }
    }
}

fn go_on(outcome: TestOutcome) -> (action: SessionAction)
    ensures
        action@ == after_verification(outcome@),
{
    match outcome {
        TestOutcome::Success => SessionAction::FindNext,
        TestOutcome::Failure { command, details } => SessionAction::ShowFailure { command, details },
    }
}

/// What is to be done after an event.
pub fn next_action(keep_going: bool, event: SessionEvent) -> (action: SessionAction)
    ensures
        action@ == action_after(keep_going, event@),
{
    match event {
        SessionEvent::Sought(outcome) => go_on(outcome),
        SessionEvent::Next(None) => SessionAction::ShowAllDone,
        SessionEvent::Next(Some(exercise)) => if keep_going {
            SessionAction::OpenNext
        } else {
            SessionAction::Ask(exercise)
        },
        SessionEvent::Answered(yes) => if yes {
            SessionAction::OpenNext
        } else {
            SessionAction::Stop
        },
        SessionEvent::Opened(exercise) => if keep_going {
            SessionAction::Verify(exercise)
        } else {
            SessionAction::ShowOpened(exercise)
        },
        SessionEvent::Verified(outcome) => go_on(outcome),
    }
}

impl SessionAction {
    /// The exit code of a session that ends with this action.
    pub fn exit_code(&self) -> (code: Option<i32>)
        ensures
            match code {
                Some(number) => self@.exit_code() == Some(number as int),
                None => self@.exit_code() is None,
            },
    {
        match self {
            SessionAction::ShowOpened(_) => Some(0),
            SessionAction::ShowFailure { .. } => Some(1),
            SessionAction::ShowAllDone => Some(0),
            SessionAction::Stop => Some(0),
            _ => None,
        }
    }
}

/// A session that keeps going never asks and never stops after opening an exercise; one that
/// does not never verifies what it opens. Either way a failed verification ends the session
/// with a failure, and nothing else does.
pub proof fn law_session(keep_going: bool, event: EventView)
    ensures
        keep_going ==> !(action_after(keep_going, event) is Ask) && !(action_after(
            keep_going,
            event,
        ) is ShowOpened),
        !keep_going ==> !(action_after(keep_going, event) is Verify),
        action_after(keep_going, event).exit_code() == Some(1int) <==> match event {
            EventView::Sought(outcome) => outcome is Failure,
            EventView::Verified(outcome) => outcome is Failure,
            _ => false,
        },
{
}

/// What an answer means.
pub open spec fn meaning(answer: Seq<char>) -> Option<bool> {
    let lower = text::ascii_lowered(answer);
    if lower == "yes"@ || lower == "y"@ || lower == "是"@ {
        Some(true)
    } else if lower == "no"@ || lower == "n"@ || lower == "否"@ {
        Some(false)
    } else {
        None
    }
}

/// What an answer means, if it is one of those that are understood. ASCII capitals count as
/// small letters.
pub fn parse_bool(answer: &str) -> (yes: Option<bool>)
    ensures
        yes == meaning(answer@),
{
    let lower = text::to_ascii_lowercase(answer);
    proof {
        reveal_strlit("yes");
        reveal_strlit("y");
        reveal_strlit("是");
        reveal_strlit("no");
        reveal_strlit("n");
        reveal_strlit("否");
    }
    if lower == "yes".to_string() || lower == "y".to_string() || lower == "是".to_string() {
        Some(true)
    } else if lower == "no".to_string() || lower == "n".to_string() || lower == "否".to_string() {
        Some(false)
    } else {
        None
    }
}

/// ASCII capitals in an answer do not matter.
pub proof fn law_capitals_do_not_matter(a: Seq<char>, b: Seq<char>)
    requires
        text::ascii_lowered(a) == text::ascii_lowered(b),
    ensures
        meaning(a) == meaning(b),
{
}

/// What a session does: the exercises that it asks about, opens and verifies, in order, and the
/// action with which it ends.
#[verifier::ext_equal]
pub struct SessionView {
    pub asked: Seq<definition::DefinitionView>,
    pub opened: Seq<definition::DefinitionView>,
    pub verified: Seq<definition::DefinitionView>,
    pub last: ActionView,
}

/// How far a session is from opening the next exercise or ending.
pub open spec fn distance(event: EventView) -> nat {
    match event {
        EventView::Opened(_) => 4,
        EventView::Sought(_) => 3,
        EventView::Verified(_) => 3,
        EventView::Next(_) => 2,
        EventView::Answered(_) => 1,
    }
}

/// What a session does from an event on, where `left` are the exercises that can be opened in
/// turn, `answer` is what the user says, and `verdict` tells how a verification ends.
pub open spec fn session_from(
    keep_going: bool,
    event: EventView,
    left: Seq<definition::DefinitionView>,
    answer: bool,
    verdict: spec_fn(definition::DefinitionView) -> verify::OutcomeView,
) -> SessionView
    decreases left.len(), distance(event),
{
    let action = action_after(keep_going, event);
    let ended = SessionView {
        asked: Seq::empty(),
        opened: Seq::empty(),
        verified: Seq::empty(),
        last: action,
    };
    match action {
        ActionView::FindNext => {
            let next = if left.len() > 0 {
                Some(left[0])
            } else {
                None
            };
            session_from(keep_going, EventView::Next(next), left, answer, verdict)
        },
        ActionView::Ask(exercise) => {
            let rest = session_from(
                keep_going,
                EventView::Answered(answer),
                left,
                answer,
                verdict,
            );
            SessionView { asked: seq![exercise] + rest.asked, ..rest }
        },
        ActionView::OpenNext => if left.len() == 0 {
            ended
        } else {
            let rest = session_from(
                keep_going,
                EventView::Opened(left[0]),
                left.drop_first(),
                answer,
                verdict,
            );
            SessionView { opened: seq![left[0]] + rest.opened, ..rest }
        },
        ActionView::Verify(exercise) => {
            let rest = session_from(
                keep_going,
                EventView::Verified(verdict(exercise)),
                left,
                answer,
                verdict,
            );
            SessionView { verified: seq![exercise] + rest.verified, ..rest }
        },
        _ => ended,
    }
}

/// Where the walk over the opened exercises has failed, a session does nothing but show that
/// failure. Otherwise, where it does not keep going, it asks about the first exercise that can
/// be opened, once; it opens that one and shows it where the answer is yes, and stops where it
/// is no. Where nothing can be opened, it says so.
pub proof fn law_session_asks_and_opens_one(
    keep_going: bool,
    outcome: verify::OutcomeView,
    left: Seq<definition::DefinitionView>,
    answer: bool,
    verdict: spec_fn(definition::DefinitionView) -> verify::OutcomeView,
)
    ensures
        ({
            let session = session_from(
                keep_going,
                EventView::Sought(outcome),
                left,
                answer,
                verdict,
            );
            &&& outcome matches verify::OutcomeView::Failure { command, details } ==> {
                &&& session.asked.len() == 0
                &&& session.opened.len() == 0
                &&& session.verified.len() == 0
                &&& session.last == ActionView::ShowFailure { command, details }
            }
            &&& outcome is Success && left.len() == 0 ==> {
                &&& session.asked.len() == 0
                &&& session.opened.len() == 0
                &&& session.verified.len() == 0
                &&& session.last == ActionView::ShowAllDone
            }
            &&& outcome is Success && left.len() > 0 && !keep_going ==> {
                &&& session.asked == seq![left[0]]
                &&& session.verified.len() == 0
                &&& answer ==> session.opened == seq![left[0]] && session.last
                    == ActionView::ShowOpened(left[0])
                &&& !answer ==> session.opened.len() == 0 && session.last == ActionView::Stop
            }
        }),
{
    reveal_with_fuel(session_from, 6);
    let session = session_from(keep_going, EventView::Sought(outcome), left, answer, verdict);
    if outcome is Success && left.len() > 0 && !keep_going {
        assert(session.asked =~= seq![left[0]]);
        if answer {
            assert(session.opened =~= seq![left[0]]);
        }
    }
}

/// A session that keeps going asks nothing. It opens the exercises in turn and verifies each
/// that it opened, up to the first that fails, and shows that failure; where none fails, it
/// opens all of them and says that nothing is left.
pub proof fn law_session_keeps_going(
    left: Seq<definition::DefinitionView>,
    answer: bool,
    verdict: spec_fn(definition::DefinitionView) -> verify::OutcomeView,
) -> (k: int)
    ensures
        ({
            let session = session_from(
                true,
                EventView::Sought(verify::OutcomeView::Success),
                left,
                answer,
                verdict,
            );
            &&& 0 <= k <= left.len()
            &&& forall|j: int| 0 <= j < k ==> verdict(#[trigger] left[j]) is Success
            &&& session.asked.len() == 0
            &&& session.verified == session.opened
            &&& k == left.len() ==> session.opened == left && session.last
                == ActionView::ShowAllDone
            &&& k < left.len() ==> {
                &&& session.opened == left.take(k + 1)
                &&& verdict(left[k]) matches verify::OutcomeView::Failure { command, details }
                    && session.last == (ActionView::ShowFailure { command, details })
            }
        }),
    decreases left.len(),
{
    reveal_with_fuel(session_from, 5);
    let sought = EventView::Sought(verify::OutcomeView::Success);
    let session = session_from(true, sought, left, answer, verdict);
    if left.len() == 0 {
        assert(session.opened =~= left);
        0
    } else {
        let rest = left.drop_first();
        let after = session_from(
            true,
            EventView::Verified(verdict(left[0])),
            rest,
            answer,
            verdict,
        );
        assert(session.opened == seq![left[0]] + after.opened);
        assert(session.verified == seq![left[0]] + after.verified);
        if verdict(left[0]) is Failure {
            assert(session.opened =~= left.take(1));
            0
        } else {
            assert(after == session_from(true, sought, rest, answer, verdict));
            let k = law_session_keeps_going(rest, answer, verdict) + 1;
            assert forall|j: int| 0 <= j < k implies verdict(#[trigger] left[j]) is Success by {
                if j > 0 {
                    assert(left[j] == rest[j - 1]);
                }
            }
            if k < left.len() {
                assert(seq![left[0]] + rest.take(k) =~= left.take(k + 1));
            } else {
                assert(seq![left[0]] + rest =~= left);
            }
            k
        }
    }
}

/// A session ends with a failure exactly where a failure is shown, with success where it ends
/// otherwise, and every other action has no exit code.
pub proof fn law_exit_code(action: ActionView)
    ensures
        action.exit_code() == Some(1int) <==> action is ShowFailure,
        action.exit_code() == Some(0int) <==> action is ShowOpened || action is ShowAllDone
            || action is Stop,
        action.exit_code() is None <==> action is FindNext || action is Ask || action is OpenNext
            || action is Verify,
{
}

/// Only a few answers are understood, letter by letter: one or three letters for yes, one or two
/// for no, in small letters or capitals, and one Chinese character for each.
pub proof fn law_answers(answer: Seq<char>)
    ensures
        meaning(answer) == Some(true) <==> {
            ||| answer.len() == 1 && (answer[0] == 'y' || answer[0] == 'Y' || answer[0] == '是')
            ||| answer.len() == 3 && (answer[0] == 'y' || answer[0] == 'Y') && (answer[1] == 'e'
                || answer[1] == 'E') && (answer[2] == 's' || answer[2] == 'S')
        },
        meaning(answer) == Some(false) <==> {
            ||| answer.len() == 1 && (answer[0] == 'n' || answer[0] == 'N' || answer[0] == '否')
            ||| answer.len() == 2 && (answer[0] == 'n' || answer[0] == 'N') && (answer[1] == 'o'
                || answer[1] == 'O')
        },
{
    reveal_strlit("yes");
    reveal_strlit("y");
    reveal_strlit("是");
    reveal_strlit("no");
    reveal_strlit("n");
    reveal_strlit("否");
    let lower = text::ascii_lowered(answer);
    assert(lower.len() == answer.len());
    assert(forall|i: int|
        0 <= i < answer.len() ==> #[trigger] lower[i] == text::ascii_lower(answer[i]));
    if answer.len() == 1 {
        assert(lower =~= seq![text::ascii_lower(answer[0])]);
        assert("y"@ =~= seq!['y']);
        assert("n"@ =~= seq!['n']);
        assert("是"@ =~= seq!['是']);
        assert("否"@ =~= seq!['否']);
        assert(lower[0] == text::ascii_lower(answer[0]));
    } else if answer.len() == 2 {
        assert(lower[0] == text::ascii_lower(answer[0]));
        assert(lower[1] == text::ascii_lower(answer[1]));
        if (answer[0] == 'n' || answer[0] == 'N') && (answer[1] == 'o' || answer[1] == 'O') {
            assert(lower =~= "no"@);
        }
        if lower == "no"@ {
            assert("no"@[0] == 'n' && "no"@[1] == 'o');
        }
    } else if answer.len() == 3 {
        assert(lower[0] == text::ascii_lower(answer[0]));
        assert(lower[1] == text::ascii_lower(answer[1]));
        assert(lower[2] == text::ascii_lower(answer[2]));
        if (answer[0] == 'y' || answer[0] == 'Y') && (answer[1] == 'e' || answer[1] == 'E') && (
        answer[2] == 's' || answer[2] == 'S') {
            assert(lower =~= "yes"@);
        }
        if lower == "yes"@ {
            assert("yes"@[0] == 'y' && "yes"@[1] == 'e' && "yes"@[2] == 's');
        }
    }
}

/// What an event and an action say is what they hold.
pub proof fn law_events_and_actions_are_said(event: SessionEvent, action: SessionAction)
    ensures
        match event {
            SessionEvent::Sought(outcome) => event@ == EventView::Sought(outcome@),
            SessionEvent::Next(Some(exercise)) => event@ == EventView::Next(Some(exercise@)),
            SessionEvent::Next(None) => event@ == EventView::Next(None),
            SessionEvent::Answered(yes) => event@ == EventView::Answered(yes),
            SessionEvent::Opened(exercise) => event@ == EventView::Opened(exercise@),
            SessionEvent::Verified(outcome) => event@ == EventView::Verified(outcome@),
        },
        action@ is FindNext <==> action is FindNext,
        action@ is OpenNext <==> action is OpenNext,
        action@ is ShowAllDone <==> action is ShowAllDone,
        action@ is Stop <==> action is Stop,
        action matches SessionAction::Ask(exercise) ==> action@ == ActionView::Ask(exercise@),
        action matches SessionAction::Verify(exercise) ==> action@ == ActionView::Verify(
            exercise@,
        ),
        action matches SessionAction::ShowOpened(exercise) ==> action@ == ActionView::ShowOpened(
            exercise@,
        ),
        action matches SessionAction::ShowFailure { command, details } ==> action@
            == (ActionView::ShowFailure { command: command@, details: details@ }),
{
}

} // verus!
