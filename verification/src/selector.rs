use vstd::prelude::*;

use crate::collection;
use crate::collection::ExerciseCollection;
use crate::definition;
use crate::definition::ExerciseDefinition;
use crate::ordered;
use crate::text;

verus! {

/// How the user names a chapter or an exercise.
#[derive(Debug, PartialEq, Eq)]
pub enum Selector {
    /// By the number and the name, as the directory has them.
    FullName(String),
    /// By the number.
    Number(u16),
}

/// What a [`Selector`] says.
#[verifier::ext_equal]
pub enum SelectorView {
    FullName(Seq<char>),
    Number(u16),
}

impl View for Selector {
    type V = SelectorView;

    open spec fn view(&self) -> SelectorView {
        match self {
            Selector::FullName(name) => SelectorView::FullName(name@),
            Selector::Number(number) => SelectorView::Number(*number),
        }
    }
}

impl SelectorView {
    /// What the user means by some text: a number where it spells one, else a full name.
    pub open spec fn parsed(text: Seq<char>) -> Self {
        match text::spelled_u16(text) {
            Some(number) => SelectorView::Number(number),
            None => SelectorView::FullName(text),
        }
    }

    /// The selector means what has this name and this number.
    pub open spec fn selects(self, name: Seq<char>, number: u16) -> bool {
        match self {
            SelectorView::FullName(full) => full == name,
            SelectorView::Number(wanted) => wanted == number,
        }
    }

    /// The selector as it is shown to the user.
    pub open spec fn shown(self) -> Seq<char> {
        match self {
            SelectorView::FullName(full) => full,
            SelectorView::Number(number) => text::decimal(number as nat),
        }
    }
}

impl Selector {
    /// What the user means by `text`.
    pub fn new(text: String) -> (selector: Self)
        ensures
            selector@ == SelectorView::parsed(text@),
    {
        match text::parse_u16(text.as_str()) {
            Some(number) => Selector::Number(number),
            None => Selector::FullName(text),
        }
    }

    /// Whether the selector means what has this name and this number.
    pub fn matches(&self, name: &str, number: u16) -> (selected: bool)
        ensures
            selected == self@.selects(name@, number),
    {
        match self {
            Selector::FullName(full) => *full == name.to_string(),
            Selector::Number(wanted) => *wanted == number,
        }
    }

    /// The selector as it is shown to the user.
    pub fn to_string(&self) -> (text: String)
        ensures
            text@ == self@.shown(),
    {
        match self {
            Selector::FullName(full) => full.clone(),
            Selector::Number(number) => text::write_decimal(*number),
        }
    }
}

/// The two selectors mean this exercise.
pub open spec fn selects_exercise(
    chapter: SelectorView,
    exercise: SelectorView,
    candidate: definition::DefinitionView,
) -> bool {
    &&& chapter.selects(candidate.chapter(), candidate.chapter_number)
    &&& exercise.selects(candidate.exercise(), candidate.number)
}

/// `found` is the first exercise that the selectors mean, if there is one.
pub open spec fn is_selected(
    exercises: Seq<definition::DefinitionView>,
    chapter: SelectorView,
    exercise: SelectorView,
    found: Option<definition::DefinitionView>,
) -> bool {
    match found {
        Some(first) => exists|i: int|
            {
                &&& 0 <= i < exercises.len()
                &&& #[trigger] exercises[i] == first
                &&& selects_exercise(chapter, exercise, first)
                &&& forall|j: int|
                    0 <= j < i ==> !selects_exercise(chapter, exercise, #[trigger] exercises[j])
            },
        None => forall|j: int|
            0 <= j < exercises.len() ==> !selects_exercise(
                chapter,
                exercise,
                #[trigger] exercises[j],
            ),
    }
}

impl ExerciseCollection {
    /// The first exercise that the selectors mean.
    pub fn select(&self, chapter: &Selector, exercise: &Selector) -> (found: Option<
        ExerciseDefinition,
    >)
        ensures
            is_selected(
                self@.exercises,
                chapter@,
                exercise@,
                match found {
                    Some(first) => Some(first@),
                    None => None,
                },
            ),
    {
        let exercises = self.iter();
        let ghost all = self@.exercises;
        let mut i: usize = 0;
        while i < exercises.len()
            invariant
                i <= exercises.len(),
                all == ordered::views(exercises@),
                all == self@.exercises,
                forall|j: int|
                    0 <= j < i ==> !selects_exercise(chapter@, exercise@, #[trigger] all[j]),
            decreases exercises.len() - i,
        {
            let candidate = &exercises[i];
            assert(all[i as int] == candidate@);
            if chapter.matches(candidate.chapter().as_str(), candidate.chapter_number())
                && exercise.matches(candidate.exercise().as_str(), candidate.exercise_number()) {
                return Some(candidate.clone());
            }
            i += 1;
        }
        None
    }
}

/// A number and a name do not spell a number.
proof fn lemma_numbered_name_is_full(number: u16, name: Seq<char>)
    requires
        number <= 99,
    ensures
        SelectorView::parsed(definition::numbered_name(number, name)) == SelectorView::FullName(
            definition::numbered_name(number, name),
        ),
{
    let whole = definition::numbered_name(number, name);
    reveal_with_fuel(text::decimal, 2);
    assert(whole[2] == '_');
}

/// The full names of a chapter and of an exercise in it, their numbers, and the name of the one
/// with the number of the other all find an exercise with those numbers: the exercise itself
/// where it is the only one with its numbers, and where both full names are given.
pub proof fn law_names_and_numbers_select_the_same(
    collection: collection::CollectionView,
    i: int,
    chapter: SelectorView,
    exercise: SelectorView,
    found: Option<definition::DefinitionView>,
)
    requires
        collection.wf(),
        0 <= i < collection.exercises.len(),
        chapter == SelectorView::parsed(collection.exercises[i].chapter()) || chapter
            == SelectorView::Number(collection.exercises[i].chapter_number),
        exercise == SelectorView::parsed(collection.exercises[i].exercise()) || exercise
            == SelectorView::Number(collection.exercises[i].number),
        is_selected(collection.exercises, chapter, exercise, found),
    ensures
        found is Some,
        collection.exercises.contains(found->Some_0),
        found->Some_0.numbers() == collection.exercises[i].numbers(),
        chapter is FullName && exercise is FullName ==> found == Some(collection.exercises[i]),
        (forall|j: int|
            0 <= j < collection.exercises.len() && j != i ==> (
            #[trigger] collection.exercises[j]).numbers() != collection.exercises[i].numbers())
            ==> found == Some(collection.exercises[i]),
{
    let wanted = collection.exercises[i];
    lemma_numbered_name_is_full(wanted.chapter_number, wanted.chapter_name);
    lemma_numbered_name_is_full(wanted.number, wanted.name);
    let first = found->Some_0;
    let k = choose|k: int|
        0 <= k < collection.exercises.len() && #[trigger] collection.exercises[k] == first;
    definition::law_names_tell_exercises_apart(first, wanted);
}

/// The decimal digits of a number, with any zeros in front, select that number; so do its
/// digits in the name of a directory.
pub proof fn law_digits_select_the_number(zeros: nat, number: u16)
    ensures
        SelectorView::parsed(text::zeros(zeros) + text::decimal(number as nat))
            == SelectorView::Number(number),
        SelectorView::parsed(text::two_digits(number as nat)) == SelectorView::Number(number),
{
    text::lemma_padded_spells(zeros, number);
    text::lemma_decimal_spells(number as nat);
    if number < 10 {
        text::lemma_padded_spells(1, number);
        assert(text::zeros(1) + text::decimal(number as nat) =~= text::two_digits(number as nat));
    }
}

/// The exercise that is found has the full name or the number that each selector says, and none
/// before it has both; where none is found, no exercise of the collection has both.
pub proof fn law_selected_exercise_is_meant(
    exercises: Seq<definition::DefinitionView>,
    chapter: SelectorView,
    exercise: SelectorView,
    found: Option<definition::DefinitionView>,
) -> (k: int)
    requires
        is_selected(exercises, chapter, exercise, found),
    ensures
        ({
            let meant = |one: definition::DefinitionView|
                (match chapter {
                    SelectorView::FullName(full) => one.chapter() == full,
                    SelectorView::Number(number) => one.chapter_number == number,
                }) && (match exercise {
                    SelectorView::FullName(full) => one.exercise() == full,
                    SelectorView::Number(number) => one.number == number,
                });
            &&& found is None <==> k == exercises.len()
            &&& 0 <= k <= exercises.len()
            &&& forall|j: int| 0 <= j < k ==> !meant(#[trigger] exercises[j])
            &&& found matches Some(one) ==> one == exercises[k] && meant(one)
        }),
{
    match found {
        Some(first) => {
            let k = choose|k: int|
                {
                    &&& 0 <= k < exercises.len()
                    &&& #[trigger] exercises[k] == first
                    &&& selects_exercise(chapter, exercise, first)
                    &&& forall|j: int|
                        0 <= j < k ==> !selects_exercise(
                            chapter,
                            exercise,
                            #[trigger] exercises[j],
                        )
                };
            assert forall|j: int| 0 <= j < k implies !selects_exercise(
                chapter,
                exercise,
                #[trigger] exercises[j],
            ) by {}
            k
        },
        None => exercises.len() as int,
    }
}

/// What the user types is a number where it is one, and otherwise a full name that is exactly
/// what was typed. It is shown again as that name, or as that number.
pub proof fn law_what_is_typed(typed: Seq<char>)
    ensures
        match SelectorView::parsed(typed) {
            SelectorView::Number(number) => text::spelled_u16(typed) == Some(number),
            SelectorView::FullName(full) => full == typed && text::spelled_u16(typed) is None,
        },
        SelectorView::parsed(typed) is FullName ==> SelectorView::parsed(typed).shown() == typed,
        SelectorView::parsed(SelectorView::parsed(typed).shown()) == SelectorView::parsed(typed),
{
    if let SelectorView::Number(number) = SelectorView::parsed(typed) {
        text::lemma_decimal_spells(number as nat);
    }
}

} // verus!
