use vstd::prelude::*;

use crate::definition;
use crate::definition::{ExerciseDefinition, OpenedExercise};
use crate::ordered;
use crate::ordered::Numbered;
use crate::path;
use crate::path::Host;
use crate::progress;
use crate::progress::{ProgressRow, Statement};

verus! {

/// A directory inside the directory of the exercises, by the bytes of its name and of the
/// names that are in it.
#[derive(Debug)]
pub struct ChapterDir {
    pub name: Vec<u8>,
    pub entries: Vec<Vec<u8>>,
}

/// What a [`ChapterDir`] says.
#[verifier::ext_equal]
pub struct ChapterView {
    pub name: Seq<u8>,
    pub entries: Seq<Seq<u8>>,
}

impl View for ChapterDir {
    type V = ChapterView;

    open spec fn view(&self) -> ChapterView {
        ChapterView { name: self.name@, entries: ordered::views(self.entries@) }
    }
}

impl ChapterView {
    /// The name of the directory beside each name in it.
    pub open spec fn pairs(self) -> Seq<(Seq<u8>, Seq<u8>)> {
        self.entries.map_values(|entry: Seq<u8>| (self.name, entry))
    }
}

/// The name of each chapter beside each name in it, chapter after chapter.
pub open spec fn listed(chapters: Seq<ChapterView>) -> Seq<(Seq<u8>, Seq<u8>)>
    decreases chapters.len(),
{
    if chapters.len() == 0 {
        Seq::empty()
    } else {
        listed(chapters.drop_last()) + chapters.last().pairs()
    }
}

/// The definitions among the pairs of names. What defines no exercise is passed over.
pub open spec fn defined(pairs: Seq<(Seq<u8>, Seq<u8>)>) -> Seq<definition::DefinitionView>
    decreases pairs.len(),
{
    if pairs.len() == 0 {
        Seq::empty()
    } else {
        let before = defined(pairs.drop_last());
        match definition::definition_in_bytes(pairs.last().0, pairs.last().1) {
            Ok(definition) => before.push(definition),
            Err(_) => before,
        }
    }
}

/// Every number that is read for the pairs of names can be read.
pub open spec fn pairs_readable(pairs: Seq<(Seq<u8>, Seq<u8>)>) -> bool {
    forall|i: int|
        0 <= i < pairs.len() ==> definition::definition_readable(
            (#[trigger] pairs[i]).0,
            pairs[i].1,
        )
}

/// Why an exercise was not opened.
#[derive(Clone, Copy, Debug, PartialEq, Eq, Structural)]
pub enum OpenError {
    /// The collection has no exercise with these numbers.
    NotInCollection,
    /// There are no more exercises to open.
    NothingLeft,
}

/// The exercises of a workshop, and the directory that holds them.
#[derive(Debug)]
pub struct ExerciseCollection {
    exercises_dir: String,
    exercises: Vec<ExerciseDefinition>,
}

/// What an [`ExerciseCollection`] says.
#[verifier::ext_equal]
pub struct CollectionView {
    pub exercises_dir: Seq<char>,
    pub exercises: Seq<definition::DefinitionView>,
}

impl View for ExerciseCollection {
    type V = CollectionView;

    closed spec fn view(&self) -> CollectionView {
        CollectionView {
            exercises_dir: self.exercises_dir@,
            exercises: ordered::views(self.exercises@),
        }
    }
}

impl CollectionView {
    /// The exercises are well formed and in order, and none is there twice.
    pub open spec fn wf(self) -> bool {
        &&& ordered::in_order::<ExerciseDefinition>(self.exercises)
        &&& forall|i: int| 0 <= i < self.exercises.len() ==> (#[trigger] self.exercises[i]).wf()
    }

    /// Some exercise of the collection has these numbers.
    pub open spec fn has(self, numbers: (u16, u16)) -> bool {
        ordered::has_numbers::<ExerciseDefinition>(self.exercises, numbers)
    }

    /// An opened exercise stands for one of the collection where it is that one, and where it
    /// has the numbers of that one but is not in the collection itself: it was then given
    /// another name.
    pub open spec fn stands_for(
        self,
        opened: definition::DefinitionView,
        exercise: definition::DefinitionView,
    ) -> bool {
        ||| opened == exercise
        ||| opened.numbers() == exercise.numbers() && !self.exercises.contains(opened)
    }

    /// Some opened exercise stands for this one.
    pub open spec fn is_open(
        self,
        opened: Seq<definition::OpenedView>,
        exercise: definition::DefinitionView,
    ) -> bool {
        exists|i: int|
            0 <= i < opened.len() && self.stands_for(
                (#[trigger] opened[i]).definition,
                exercise,
            )
    }

    /// The exercises that no opened exercise stands for, in order.
    pub open spec fn unopened(self, opened: Seq<definition::OpenedView>) -> Seq<
        definition::DefinitionView,
    > {
        self.exercises.filter(
            |exercise: definition::DefinitionView| !self.is_open(opened, exercise),
        )
    }

    /// The file of the progress database.
    pub open spec fn database_path(self, separator: char) -> Seq<char> {
        path::joined(separator, self.exercises_dir, "progress.db"@)
    }
}

/// `collection` holds the exercises that the chapters define.
pub open spec fn is_collection_of(
    exercises_dir: Seq<char>,
    chapters: Seq<ChapterView>,
    collection: CollectionView,
) -> bool {
    &&& collection.exercises_dir == exercises_dir
    &&& ordered::is_set_of::<ExerciseDefinition>(defined(listed(chapters)), collection.exercises)
    &&& collection.wf()
}

/// What readable names define is well formed.
proof fn lemma_defined_wf(pairs: Seq<(Seq<u8>, Seq<u8>)>)
    requires
        pairs_readable(pairs),
    ensures
        forall|i: int| 0 <= i < defined(pairs).len() ==> (#[trigger] defined(pairs)[i]).wf(),
    decreases pairs.len(),
{
    if pairs.len() > 0 {
        let last = pairs.last();
        lemma_defined_wf(pairs.drop_last());
        definition::lemma_bytes_wf(last.0, last.1);
        let before = defined(pairs.drop_last());
        assert(forall|i: int| 0 <= i < before.len() ==> defined(pairs)[i] == #[trigger] before[i]);
    }
}

/// Each pair of a chapter is among the listed pairs.
proof fn lemma_listed_has(chapters: Seq<ChapterView>, c: int, e: int)
    requires
        0 <= c < chapters.len(),
        0 <= e < chapters[c].entries.len(),
    ensures
        exists|i: int|
            0 <= i < listed(chapters).len() && #[trigger] listed(chapters)[i] == (
                chapters[c].name,
                chapters[c].entries[e],
            ),
    decreases chapters.len(),
{
    let before = listed(chapters.drop_last());
    if c == chapters.len() - 1 {
        assert(listed(chapters)[before.len() + e] == chapters.last().pairs()[e]);
    } else {
        lemma_listed_has(chapters.drop_last(), c, e);
        let i = choose|i: int|
            0 <= i < before.len() && #[trigger] before[i] == (
                chapters[c].name,
                chapters[c].entries[e],
            );
        assert(listed(chapters)[i] == before[i]);
    }
}

impl ExerciseCollection {
    /// The exercises that the directories inside `exercises_dir` define.
    pub fn new(exercises_dir: String, chapters: &Vec<ChapterDir>) -> (collection: Self)
        requires
            pairs_readable(listed(ordered::views(chapters@))),
        ensures
            is_collection_of(exercises_dir@, ordered::views(chapters@), collection@),
    {
        let ghost all = ordered::views(chapters@);
        let mut exercises: Vec<ExerciseDefinition> = Vec::new();
        let ghost mut items: Seq<definition::DefinitionView> = Seq::empty();
        let mut c: usize = 0;
        while c < chapters.len()
            invariant
                c <= chapters.len(),
                all == ordered::views(chapters@),
                pairs_readable(listed(all)),
                items == defined(listed(all.take(c as int))),
                ordered::is_set_of::<ExerciseDefinition>(items, ordered::views(exercises@)),
            decreases chapters.len() - c,
        {
            let chapter = &chapters[c];
            let ghost before = listed(all.take(c as int));
            let ghost pairs = all[c as int].pairs();
            let mut e: usize = 0;
            while e < chapter.entries.len()
                invariant
                    e <= chapter.entries.len(),
                    c < chapters.len(),
                    all == ordered::views(chapters@),
                    all[c as int] == chapter@,
                    pairs == all[c as int].pairs(),
                    pairs.len() == chapter.entries.len(),
                    pairs_readable(listed(all)),
                    items == defined(before + pairs.take(e as int)),
                    ordered::is_set_of::<ExerciseDefinition>(items, ordered::views(exercises@)),
                decreases chapter.entries.len() - e,
            {
                let ghost next = before + pairs.take(e + 1);
                proof {
                    lemma_listed_has(all, c as int, e as int);
                    assert(next.drop_last() =~= before + pairs.take(e as int));
                }
                let parsed = ExerciseDefinition::new(
                    chapter.name.as_slice(),
                    chapter.entries[e].as_slice(),
                );
                if let Ok(definition) = parsed {
                    let ghost new = definition@;
                    ordered::insert(&mut exercises, definition, Ghost(items));
                    proof {
                        items = items.push(new);
                    }
                }
                e += 1;
            }
            proof {
                assert(pairs.take(e as int) =~= pairs);
                assert(all.take(c + 1).drop_last() =~= all.take(c as int));
            }
            c += 1;
        }
        assert(all.take(c as int) =~= all);
        let collection = ExerciseCollection { exercises_dir, exercises };
        proof {
            lemma_defined_wf(listed(all));
            let set = ordered::views(exercises@);
            ordered::lemma_set_in_order::<ExerciseDefinition>(items, set);
            assert forall|k: int| 0 <= k < set.len() implies (#[trigger] set[k]).wf() by {
                assert(set.contains(set[k]));
                assert(items.contains(set[k]));
            }
        }
        collection
    }

    /// As [`ExerciseCollection::new`], for any directories: `None` where a number would have to
    /// be read from digits that are not ASCII.
    pub fn checked_new(exercises_dir: String, chapters: &Vec<ChapterDir>) -> (res: Option<Self>)
        ensures
            res is Some <==> pairs_readable(listed(ordered::views(chapters@))),
            res matches Some(collection) ==> is_collection_of(
                exercises_dir@,
                ordered::views(chapters@),
                collection@,
            ),
    {
        if all_readable(chapters) {
            Some(Self::new(exercises_dir, chapters))
        } else {
            None
        }
    }

    /// The directory that holds all chapters and exercises.
    pub fn exercises_dir(&self) -> (dir: &str)
        ensures
            dir@ == self@.exercises_dir,
    {
        self.exercises_dir.as_str()
    }

    /// The file of the progress database.
    pub fn database_path(&self, host: Host) -> (path: String)
        ensures
            path@ == self@.database_path(host@),
    {
        path::join(host, self.exercises_dir.as_str(), "progress.db")
    }

    /// The exercises of the collection, opened or not, in the order in which they are meant to
    /// be done.
    pub fn iter(&self) -> (exercises: &Vec<ExerciseDefinition>)
        ensures
            ordered::views(exercises@) == self@.exercises,
    {
        &self.exercises
    }

    /// The query for the number of opened exercises.
    pub fn n_opened(&self) -> (statement: Statement)
        ensures
            statement@ == progress::StatementView::CountOpened,
    {
        Statement::CountOpened
    }

    /// The opened exercises, from the rows of the progress database: `None` where a row names
    /// no exercise.
    pub fn opened(&self, rows: &Vec<ProgressRow>) -> (opened: Option<Vec<OpenedExercise>>)
        ensures
            opened is Some <==> progress::rows_valid(ordered::views(rows@)),
            opened matches Some(inner) ==> progress::is_opened(
                ordered::views(rows@),
                ordered::views(inner@),
            ),
    {
        progress::checked_opened_exercises(rows)
    }

    /// Whether the collection has an exercise with the numbers of this one.
    pub fn contains(&self, exercise: &ExerciseDefinition) -> (found: bool)
        ensures
            found == self@.has(exercise@.numbers()),
    {
        has_numbers(&self.exercises, exercise.numbers())
    }

    /// The statement that opens an exercise of the collection.
    pub fn open(&self, exercise: &ExerciseDefinition) -> (res: Result<Statement, OpenError>)
        ensures
            match res {
                Ok(statement) => self@.has(exercise@.numbers()) && statement@
                    == progress::StatementView::open(exercise@),
                Err(error) => !self@.has(exercise@.numbers()) && error
                    == OpenError::NotInCollection,
            },
    {
        if self.contains(exercise) {
            Ok(Statement::open(exercise))
        } else {
            Err(OpenError::NotInCollection)
        }
    }

    /// The statement that closes an exercise.
    pub fn close(&self, exercise: &ExerciseDefinition) -> (statement: Statement)
        ensures
            statement@ == progress::StatementView::close(exercise@),
    {
        Statement::close(exercise)
    }

    /// The statement that records that an exercise passed, so that it is skipped next time.
    pub fn mark_as_solved(&self, exercise: &ExerciseDefinition) -> (statement: Statement)
        ensures
            statement@ == progress::StatementView::mark_as_solved(exercise@),
    {
        Statement::mark_as_solved(exercise)
    }

    /// The statement that records that an exercise failed, so that it is not skipped next time.
    pub fn mark_as_unsolved(&self, exercise: &ExerciseDefinition) -> (statement: Statement)
        ensures
            statement@ == progress::StatementView::mark_as_unsolved(exercise@),
    {
        Statement::mark_as_unsolved(exercise)
    }

    /// The exercises that are not opened, in order.
    pub fn unopened(&self, opened: &Vec<OpenedExercise>) -> (left: Vec<ExerciseDefinition>)
        ensures
            ordered::views(left@) == self@.unopened(ordered::views(opened@)),
    {
        let ghost is_left = |exercise: definition::DefinitionView|
            !self@.is_open(ordered::views(opened@), exercise);
        let mut left: Vec<ExerciseDefinition> = Vec::new();
        let mut i: usize = 0;
        let ghost all = self@.exercises;
        reveal(Seq::filter);
        while i < self.exercises.len()
            invariant
                i <= self.exercises.len(),
                all == self@.exercises,
                all == ordered::views(self.exercises@),
                is_left == (|exercise: definition::DefinitionView|
                    !self@.is_open(ordered::views(opened@), exercise)),
                ordered::views(left@) == all.take(i as int).filter(is_left),
            decreases self.exercises.len() - i,
        {
            let exercise = &self.exercises[i];
            assert(all.take(i + 1).drop_last() =~= all.take(i as int));
            if !self.is_open(opened, exercise) {
                left.push(exercise.clone());
            }
            assert(ordered::views(left@) == all.take(i + 1).filter(is_left)) by {
                reveal(Seq::filter);
            }
            i += 1;
        }
        assert(all.take(i as int) =~= all);
        left
    }

    /// Whether some opened exercise stands for this one.
    fn is_open(&self, opened: &Vec<OpenedExercise>, exercise: &ExerciseDefinition) -> (found: bool)
        ensures
            found == self@.is_open(ordered::views(opened@), exercise@),
    {
        let ghost all = ordered::views(opened@);
        let mut i: usize = 0;
        while i < opened.len()
            invariant
                i <= opened.len(),
                all == ordered::views(opened@),
                forall|k: int|
                    0 <= k < i ==> !self@.stands_for(
                        (#[trigger] all[k]).definition,
                        exercise@,
                    ),
            decreases opened.len() - i,
        {
            let one = &opened[i].definition;
            assert(all[i as int].definition == one@);
            if one.equals(exercise) {
                return true;
            }
            if one.exercise_number() == exercise.exercise_number() && one.chapter_number()
                == exercise.chapter_number() && !self.holds(one) {
                return true;
            }
            i += 1;
        }
        false
    }

    /// Whether the exercise itself, not just one with its numbers, is in the collection.
    fn holds(&self, exercise: &ExerciseDefinition) -> (found: bool)
        ensures
            found == self@.exercises.contains(exercise@),
    {
        let ghost all = self@.exercises;
        let mut i: usize = 0;
        while i < self.exercises.len()
            invariant
                i <= self.exercises.len(),
                all == self@.exercises,
                all == ordered::views(self.exercises@),
                forall|k: int| 0 <= k < i ==> #[trigger] all[k] != exercise@,
            decreases self.exercises.len() - i,
        {
            assert(all[i as int] == self.exercises@[i as int]@);
            if self.exercises[i].equals(exercise) {
                return true;
            }
            i += 1;
        }
        false
    }
}

/// Whether some item has these numbers.
fn has_numbers<T: Numbered>(items: &Vec<T>, numbers: (u16, u16)) -> (found: bool)
    ensures
        found == ordered::has_numbers::<T>(ordered::views(items@), numbers),
{
    let ghost all = ordered::views(items@);
    let mut i: usize = 0;
    while i < items.len()
        invariant
            i <= items.len(),
            all == ordered::views(items@),
            forall|k: int| 0 <= k < i ==> T::numbers_of(#[trigger] all[k]) != numbers,
        decreases items.len() - i,
    {
        let there = items[i].numbers();
        assert(all[i as int] == items@[i as int]@);
        if there.0 == numbers.0 && there.1 == numbers.1 {
            return true;
        }
        i += 1;
    }
    false
}

/// Whether every number that is read for the chapters can be read.
fn all_readable(chapters: &Vec<ChapterDir>) -> (readable: bool)
    ensures
        readable == pairs_readable(listed(ordered::views(chapters@))),
{
    let ghost all = ordered::views(chapters@);
    let mut c: usize = 0;
    while c < chapters.len()
        invariant
            c <= chapters.len(),
            all == ordered::views(chapters@),
            pairs_readable(listed(all.take(c as int))),
        decreases chapters.len() - c,
    {
        let chapter = &chapters[c];
        let ghost before = listed(all.take(c as int));
        let ghost pairs = all[c as int].pairs();
        let mut e: usize = 0;
        while e < chapter.entries.len()
            invariant
                e <= chapter.entries.len(),
                c < chapters.len(),
                all == ordered::views(chapters@),
                all[c as int] == chapter@,
                pairs == all[c as int].pairs(),
                pairs.len() == chapter.entries.len(),
                pairs_readable(before),
                pairs_readable(pairs.take(e as int)),
            decreases chapter.entries.len() - e,
        {
            let parsed = ExerciseDefinition::checked_new(
                chapter.name.as_slice(),
                chapter.entries[e].as_slice(),
            );
            if parsed.is_none() {
                proof {
                    lemma_listed_has(all, c as int, e as int);
                }
                return false;
            }
            e += 1;
        }
        proof {
            assert(pairs.take(e as int) =~= pairs);
            assert(all.take(c + 1).drop_last() =~= all.take(c as int));
        }
        c += 1;
    }
    assert(all.take(c as int) =~= all);
    true
}

/// What is defined is what some pair defines.
proof fn lemma_defined_has(pairs: Seq<(Seq<u8>, Seq<u8>)>, exercise: definition::DefinitionView)
    ensures
        defined(pairs).contains(exercise) <==> exists|i: int|
            0 <= i < pairs.len() && definition::definition_in_bytes(
                (#[trigger] pairs[i]).0,
                pairs[i].1,
            ) == Ok::<definition::DefinitionView, definition::NameError>(exercise),
    decreases pairs.len(),
{
    if pairs.len() > 0 {
        let front = pairs.drop_last();
        let last = pairs.last();
        let before = defined(front);
        lemma_defined_has(front, exercise);
        if defined(pairs).contains(exercise) {
            let k = defined(pairs).index_of(exercise);
            if k < before.len() {
                assert(before[k] == exercise);
                let i = choose|i: int|
                    0 <= i < front.len() && definition::definition_in_bytes(
                        (#[trigger] front[i]).0,
                        front[i].1,
                    ) == Ok::<definition::DefinitionView, definition::NameError>(exercise);
                assert(pairs[i] == front[i]);
            } else {
                assert(pairs[pairs.len() - 1] == last);
            }
        }
        if exists|i: int|
            0 <= i < pairs.len() && definition::definition_in_bytes(
                (#[trigger] pairs[i]).0,
                pairs[i].1,
            ) == Ok::<definition::DefinitionView, definition::NameError>(exercise) {
            let i = choose|i: int|
                0 <= i < pairs.len() && definition::definition_in_bytes(
                    (#[trigger] pairs[i]).0,
                    pairs[i].1,
                ) == Ok::<definition::DefinitionView, definition::NameError>(exercise);
            if i < front.len() {
                assert(front[i] == pairs[i]);
                let k = before.index_of(exercise);
                assert(defined(pairs)[k] == exercise);
            } else {
                assert(defined(pairs)[before.len() as int] == exercise);
            }
        }
    }
}

/// Each listed pair is a chapter's name and the name of an entry of that chapter.
proof fn lemma_listed_from(chapters: Seq<ChapterView>, i: int) -> (place: (int, int))
    requires
        0 <= i < listed(chapters).len(),
    ensures
        0 <= place.0 < chapters.len(),
        0 <= place.1 < chapters[place.0].entries.len(),
        listed(chapters)[i] == (chapters[place.0].name, chapters[place.0].entries[place.1]),
    decreases chapters.len(),
{
    let before = listed(chapters.drop_last());
    if i < before.len() {
        let place = lemma_listed_from(chapters.drop_last(), i);
        assert(chapters.drop_last()[place.0] == chapters[place.0]);
        place
    } else {
        let e = i - before.len();
        assert(listed(chapters)[i] == chapters.last().pairs()[e]);
        (chapters.len() - 1, e)
    }
}

/// The entry at `e` of the directory at `c` is this exercise.
pub open spec fn is_entry(
    chapters: Seq<ChapterDir>,
    c: int,
    e: int,
    exercise: definition::DefinitionView,
) -> bool {
    &&& 0 <= c < chapters.len()
    &&& 0 <= e < chapters[c].entries@.len()
    &&& definition::definition_in_bytes(chapters[c].name@, chapters[c].entries@[e]@) == Ok::<
        definition::DefinitionView,
        definition::NameError,
    >(exercise)
}

/// A collection is complete: it holds every exercise that an entry of a directory defines, and
/// nothing else. It holds each once, sorted by the number of the chapter and then by the number
/// of the exercise.
pub proof fn law_collection_is_complete(
    exercises_dir: Seq<char>,
    chapters: Seq<ChapterDir>,
    collection: CollectionView,
)
    requires
        is_collection_of(exercises_dir, ordered::views(chapters), collection),
    ensures
        collection.exercises_dir == exercises_dir,
        forall|c: int, e: int, exercise: definition::DefinitionView| #[trigger]
            is_entry(chapters, c, e, exercise) ==> collection.exercises.contains(exercise),
        forall|exercise: definition::DefinitionView| #[trigger]
            collection.exercises.contains(exercise) ==> exists|c: int, e: int| #[trigger]
                is_entry(chapters, c, e, exercise),
        forall|i: int, j: int|
            0 <= i < j < collection.exercises.len() ==> {
                let first = #[trigger] collection.exercises[i];
                let second = #[trigger] collection.exercises[j];
                &&& first != second
                &&& first.chapter_number <= second.chapter_number
                &&& first.chapter_number == second.chapter_number ==> first.number
                    <= second.number
            },
{
    let all = ordered::views(chapters);
    let pairs = listed(all);
    ordered::law_set_is_sorted(defined(pairs), collection.exercises);
    assert forall|c: int, e: int, exercise: definition::DefinitionView| #[trigger]
        is_entry(chapters, c, e, exercise) implies collection.exercises.contains(exercise) by {
        assert(all[c] == chapters[c]@);
        lemma_listed_has(all, c, e);
        lemma_defined_has(pairs, exercise);
        let k = defined(pairs).index_of(exercise);
        assert(defined(pairs)[k] == exercise);
    }
    assert forall|exercise: definition::DefinitionView| #[trigger]
        collection.exercises.contains(exercise) implies exists|c: int, e: int| #[trigger]
        is_entry(chapters, c, e, exercise) by {
        let k = collection.exercises.index_of(exercise);
        assert(collection.exercises[k] == exercise);
        lemma_defined_has(pairs, exercise);
        let i = choose|i: int|
            0 <= i < pairs.len() && definition::definition_in_bytes(
                (#[trigger] pairs[i]).0,
                pairs[i].1,
            ) == Ok::<definition::DefinitionView, definition::NameError>(exercise);
        let place = lemma_listed_from(all, i);
        assert(all[place.0] == chapters[place.0]@);
        assert(is_entry(chapters, place.0, place.1, exercise));
    }
}

/// Directories make a collection unless some entry of some directory has a number that cannot
/// be read.
pub proof fn law_readable_directories(chapters: Seq<ChapterDir>)
    ensures
        pairs_readable(listed(ordered::views(chapters))) <==> forall|c: int, e: int|
            0 <= c < chapters.len() && 0 <= e < chapters[c].entries@.len()
                ==> definition::definition_readable(
                chapters[c].name@,
                (#[trigger] chapters[c].entries@[e])@,
            ),
{
    let all = ordered::views(chapters);
    let pairs = listed(all);
    if pairs_readable(pairs) {
        assert forall|c: int, e: int|
            0 <= c < chapters.len() && 0 <= e
                < chapters[c].entries@.len() implies definition::definition_readable(
            chapters[c].name@,
            (#[trigger] chapters[c].entries@[e])@,
        ) by {
            assert(all[c] == chapters[c]@);
            lemma_listed_has(all, c, e);
        }
    }
    if forall|c: int, e: int|
        0 <= c < chapters.len() && 0 <= e < chapters[c].entries@.len()
            ==> definition::definition_readable(
            chapters[c].name@,
            (#[trigger] chapters[c].entries@[e])@,
        ) {
        assert forall|i: int| 0 <= i < pairs.len() implies definition::definition_readable(
            (#[trigger] pairs[i]).0,
            pairs[i].1,
        ) by {
            let place = lemma_listed_from(all, i);
            assert(all[place.0] == chapters[place.0]@);
            let entry = chapters[place.0].entries@[place.1];
            assert(pairs[i].1 == entry@);
        }
    }
}

/// The collection can open what has the chapter's and the exercise's number of one of its
/// exercises, and nothing else.
pub proof fn law_numbers_decide_what_can_be_opened(
    collection: CollectionView,
    exercise: definition::DefinitionView,
)
    ensures
        collection.has(exercise.numbers()) <==> exists|k: int|
            {
                &&& 0 <= k < collection.exercises.len()
                &&& (#[trigger] collection.exercises[k]).chapter_number == exercise.chapter_number
                &&& collection.exercises[k].number == exercise.number
            },
        collection.exercises.contains(exercise) ==> collection.has(exercise.numbers()),
{
    if exists|k: int|
        {
            &&& 0 <= k < collection.exercises.len()
            &&& (#[trigger] collection.exercises[k]).chapter_number == exercise.chapter_number
            &&& collection.exercises[k].number == exercise.number
        } {
        let k = choose|k: int|
            {
                &&& 0 <= k < collection.exercises.len()
                &&& (#[trigger] collection.exercises[k]).chapter_number == exercise.chapter_number
                &&& collection.exercises[k].number == exercise.number
            };
        assert(ExerciseDefinition::numbers_of(collection.exercises[k]) == exercise.numbers());
    }
}

/// Where `/` separates the parts of a path, the database lies right in the directory of the
/// exercises.
pub proof fn law_database_lies_beside_the_chapters(collection: CollectionView)
    ensures
        ({
            let dir = collection.exercises_dir;
            &&& dir.len() == 0 || dir.last() == '/' ==> collection.database_path('/') == dir
                + "progress.db"@
            &&& dir.len() > 0 && dir.last() != '/' ==> collection.database_path('/') == dir
                + "/progress.db"@
        }),
        forall|separator: char|
            separator != '/' ==> #[trigger] collection.database_path(separator)
                == crate::outside::joined_elsewhere(
                separator,
                collection.exercises_dir,
                "progress.db"@,
            ),
{
    reveal_strlit("progress.db");
    reveal_strlit("/progress.db");
    let dir = collection.exercises_dir;
    assert(dir.push('/') + "progress.db"@ =~= dir + "/progress.db"@);
}

} // verus!
