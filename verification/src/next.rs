use vstd::prelude::*;

use crate::collection;
use crate::collection::{ExerciseCollection, OpenError};
use crate::definition;
use crate::definition::{ExerciseDefinition, OpenedExercise};
use crate::ordered;
use crate::progress;
use crate::progress::Statement;

verus! {

/// The search for the next exercise to open, among those that are not opened.
#[derive(Debug)]
pub struct NextSearch {
    candidates: Vec<ExerciseDefinition>,
    position: usize,
}

impl View for NextSearch {
    type V = Seq<definition::DefinitionView>;

    /// The exercises that are still to be looked at.
    closed spec fn view(&self) -> Seq<definition::DefinitionView> {
        ordered::views(self.candidates@).skip(self.position as int)
    }
}

impl NextSearch {
    /// The position is inside the candidates.
    pub closed spec fn wf(&self) -> bool {
        self.position <= self.candidates.len()
    }
}

/// What follows once it is known whether the manifest of an exercise exists.
#[derive(Debug)]
pub enum NextStep {
    /// This is the next exercise.
    Found(ExerciseDefinition),
    /// The exercise is gone from the repository: run the statement, and go on.
    Close(Statement),
}

impl ExerciseCollection {
    /// The search for the next exercise to open, in the intended order.
    pub fn next(&self, opened: &Vec<OpenedExercise>) -> (search: NextSearch)
        ensures
            search.wf(),
            search@ == self@.unopened(ordered::views(opened@)),
    {
        NextSearch { candidates: self.unopened(opened), position: 0 }
    }

    /// Opens the next exercise, as the search found it.
    pub fn open_next(&self, next: Option<ExerciseDefinition>) -> (res: Result<
        (ExerciseDefinition, Statement),
        OpenError,
    >)
        ensures
            match next {
                None => res is Err && res->Err_0 == OpenError::NothingLeft,
                Some(exercise) => match res {
                    Ok((opened, statement)) => self@.has(exercise@.numbers()) && opened@
                        == exercise@ && statement@ == progress::StatementView::open(exercise@),
                    Err(error) => !self@.has(exercise@.numbers()) && error
                        == OpenError::NotInCollection,
                },
            },
    {
        let Some(next) = next else {
            return Err(OpenError::NothingLeft);
        };
        match self.open(&next) {
            Ok(statement) => Ok((next, statement)),
            Err(error) => Err(error),
        }
    }
}

impl NextSearch {
    /// The exercise whose manifest is to be looked for now. Where there is none, no exercise
    /// is left to open.
    pub fn candidate(&self) -> (exercise: Option<&ExerciseDefinition>)
        requires
            self.wf(),
        ensures
            match exercise {
                Some(first) => self@.len() > 0 && first@ == self@[0],
                None => self@.len() == 0,
            },
    {
        if self.position < self.candidates.len() {
            Some(&self.candidates[self.position])
        } else {
            None
        }
    }

    /// Takes whether the manifest of the candidate exists.
    pub fn report(&mut self, present: bool) -> (step: NextStep)
        requires
            old(self).wf(),
            old(self)@.len() > 0,
        ensures
            final(self).wf(),
            match step {
                NextStep::Found(exercise) => present && exercise@ == old(self)@[0] && final(self)@
                    == old(self)@,
                NextStep::Close(statement) => !present && statement@
                    == progress::StatementView::close(old(self)@[0]) && final(self)@
                    == old(self)@.drop_first(),
            },
    {
        let exercise = &self.candidates[self.position];
        if present {
            NextStep::Found(exercise.clone())
        } else {
            let statement = Statement::close(exercise);
            self.position = self.position + 1;
            NextStep::Close(statement)
        }
    }
}

/// What a search ends with, where `present` tells which manifests exist: the exercises that it
/// closed, and the one that it found.
pub open spec fn search_result(
    candidates: Seq<definition::DefinitionView>,
    present: spec_fn(definition::DefinitionView) -> bool,
) -> (Seq<definition::DefinitionView>, Option<definition::DefinitionView>)
    decreases candidates.len(),
{
    if candidates.len() == 0 {
        (Seq::empty(), None)
    } else if present(candidates[0]) {
        (Seq::empty(), Some(candidates[0]))
    } else {
        let (closed, found) = search_result(candidates.drop_first(), present);
        (seq![candidates[0]] + closed, found)
    }
}

/// A search finds the first candidate that exists, and closes those before it; it finds
/// nothing only where no candidate exists.
pub proof fn law_search_finds_first_existing(
    candidates: Seq<definition::DefinitionView>,
    present: spec_fn(definition::DefinitionView) -> bool,
) -> (k: int)
    ensures
        0 <= k <= candidates.len(),
        search_result(candidates, present).0 == candidates.take(k),
        forall|j: int| 0 <= j < k ==> !present(#[trigger] candidates[j]),
        match search_result(candidates, present).1 {
            Some(found) => k < candidates.len() && found == candidates[k] && present(found),
            None => k == candidates.len(),
        },
    decreases candidates.len(),
{
    if candidates.len() == 0 || present(candidates[0]) {
        0
    } else {
        let rest = candidates.drop_first();
        let k = law_search_finds_first_existing(rest, present) + 1;
        assert forall|j: int| 0 <= j < k implies !present(#[trigger] candidates[j]) by {
            if j > 0 {
                assert(candidates[j] == rest[j - 1]);
            }
        }
        k
    }
}

/// What passes a test is in the order in which it stood.
proof fn lemma_filter_keeps_order(
    all: Seq<definition::DefinitionView>,
    left: spec_fn(definition::DefinitionView) -> bool,
)
    requires
        all.no_duplicates(),
    ensures
        forall|i: int, j: int|
            0 <= i < j < all.filter(left).len() ==> all.index_of(#[trigger] all.filter(left)[i])
                < all.index_of(#[trigger] all.filter(left)[j]),
    decreases all.len(),
{
    reveal(Seq::filter);
    if all.len() > 0 {
        let front = all.drop_last();
        lemma_filter_keeps_order(front, left);
        let kept = all.filter(left);
        let before = front.filter(left);
        assert forall|i: int| 0 <= i < before.len() implies all.index_of(#[trigger] before[i])
            == front.index_of(before[i]) && front.index_of(before[i]) < front.len() by {
            assert(before.contains(before[i]));
            front.lemma_filter_contains_rev(left, before[i]);
            let k = front.index_of(before[i]);
            assert(all[k] == before[i]);
            assert(all.contains(before[i]));
        }
        assert forall|i: int, j: int| 0 <= i < j < kept.len() implies all.index_of(
            #[trigger] kept[i],
        ) < all.index_of(#[trigger] kept[j]) by {
            assert(kept[i] == before[i]);
            if j < before.len() {
                assert(kept[j] == before[j]);
            } else {
                assert(all[all.len() - 1] == kept[j]);
                assert(all.contains(kept[j]));
            }
        }
    }
}

/// The exercises that are not opened are those of the collection that no opened exercise stands
/// for, in the order of the collection.
pub proof fn law_unopened(
    collection: collection::CollectionView,
    opened: Seq<definition::OpenedView>,
)
    requires
        collection.wf(),
    ensures
        forall|i: int, j: int|
            0 <= i < j < collection.unopened(opened).len() ==> collection.exercises.index_of(
                #[trigger] collection.unopened(opened)[i],
            ) < collection.exercises.index_of(#[trigger] collection.unopened(opened)[j]),
        forall|exercise: definition::DefinitionView| #[trigger]
            collection.unopened(opened).contains(exercise) <==> collection.exercises.contains(
                exercise,
            ) && !collection.is_open(opened, exercise),
{
    let left = |exercise: definition::DefinitionView| !collection.is_open(opened, exercise);
    let all = collection.exercises;
    lemma_filter_keeps_order(all, left);
    assert forall|exercise: definition::DefinitionView| #[trigger]
        collection.unopened(opened).contains(exercise) <==> all.contains(exercise) && left(
            exercise,
        ) by {
        if all.filter(left).contains(exercise) {
            let i = all.filter(left).index_of(exercise);
            all.lemma_filter_contains_rev(left, exercise);
            all.lemma_filter_pred(left, i);
        }
        if all.contains(exercise) && left(exercise) {
            let i = all.index_of(exercise);
            all.lemma_filter_contains(left, i);
        }
    }
}

/// The next exercise is one of the collection that is not opened and exists, and the
/// exercises before it are opened or gone. Where there is no next one, all are.
pub proof fn law_next_is_first_unopened(
    collection: collection::CollectionView,
    opened: Seq<definition::OpenedView>,
    present: spec_fn(definition::DefinitionView) -> bool,
    i: int,
)
    requires
        collection.wf(),
        0 <= i < collection.exercises.len(),
    ensures
        ({
            let other = collection.exercises[i];
            match search_result(collection.unopened(opened), present).1 {
                Some(next) => {
                    &&& collection.exercises.contains(next)
                    &&& !collection.is_open(opened, next)
                    &&& present(next)
                    &&& i < collection.exercises.index_of(next) ==> collection.is_open(
                        opened,
                        other,
                    ) || !present(other)
                },
                None => collection.is_open(opened, other) || !present(other),
            }
        }),
{
    let candidates = collection.unopened(opened);
    let other = collection.exercises[i];
    law_unopened(collection, opened);
    let k = law_search_finds_first_existing(candidates, present);
    if k < candidates.len() {
        assert(candidates.contains(candidates[k]));
    }
    assert(collection.exercises.contains(other));
    if !collection.is_open(opened, other) {
        assert(candidates.contains(other));
        let c = candidates.index_of(other);
        assert(candidates[c] == other);
        assert(collection.exercises.index_of(other) == i);
    }
}

/// The search for the next exercise leaves the table as it is: what it closes was not open.
pub proof fn law_search_changes_nothing(
    collection: collection::CollectionView,
    table: progress::Table,
    rows: Seq<progress::RowView>,
    opened: Seq<definition::OpenedView>,
    exercise: definition::DefinitionView,
)
    requires
        collection.wf(),
        progress::table_readable(table),
        progress::lists(rows, table),
        progress::is_opened(rows, opened),
        collection.unopened(opened).contains(exercise),
    ensures
        !table.contains_key(progress::key_of(exercise)),
        progress::StatementView::close(exercise).effect(table) == table,
{
    law_unopened(collection, opened);
    if table.contains_key(progress::key_of(exercise)) {
        progress::law_table_is_read_back(table, rows, opened, exercise);
    }
    progress::law_close(table, exercise);
}

/// A stricter test that something fails leaves fewer.
proof fn lemma_filter_fewer(
    all: Seq<definition::DefinitionView>,
    wide: spec_fn(definition::DefinitionView) -> bool,
    narrow: spec_fn(definition::DefinitionView) -> bool,
    out: definition::DefinitionView,
)
    requires
        forall|one: definition::DefinitionView|
            all.contains(one) && #[trigger] narrow(one) ==> wide(one),
        wide(out),
        !narrow(out),
    ensures
        all.filter(narrow).len() <= all.filter(wide).len(),
        all.contains(out) ==> all.filter(narrow).len() < all.filter(wide).len(),
    decreases all.len(),
{
    reveal(Seq::filter);
    if all.len() > 0 {
        let front = all.drop_last();
        assert forall|one: definition::DefinitionView|
            front.contains(one) && #[trigger] narrow(one) implies wide(one) by {
            let i = front.index_of(one);
            assert(all[i] == one);
        }
        assert(all.contains(all.last()));
        lemma_filter_fewer(front, wide, narrow, out);
        if all.contains(out) && all.last() != out {
            let i = all.index_of(out);
            assert(front[i] == out);
        }
    }
}

/// Opening an exercise that is not opened adds it to the opened ones as not solved, and changes
/// no other: there is one more row, and one more opened exercise.
pub proof fn law_opening_adds_one(
    collection: collection::CollectionView,
    table: progress::Table,
    rows: Seq<progress::RowView>,
    opened: Seq<definition::OpenedView>,
    exercise: definition::DefinitionView,
    rows_after: Seq<progress::RowView>,
    opened_after: Seq<definition::OpenedView>,
)
    requires
        collection.wf(),
        progress::table_readable(table),
        progress::lists(rows, table),
        progress::is_opened(rows, opened),
        collection.unopened(opened).contains(exercise),
        progress::lists(rows_after, progress::StatementView::open(exercise).effect(table)),
        progress::is_opened(rows_after, opened_after),
    ensures
        forall|one: definition::OpenedView| #[trigger]
            opened_after.contains(one) <==> opened.contains(one) || one == (
            definition::OpenedView { definition: exercise, solved: false }),
        rows_after.len() == rows.len() + 1,
        opened_after.len() == opened.len() + 1,
{
    let open = progress::StatementView::open(exercise);
    let after = open.effect(table);
    let key = progress::key_of(exercise);
    law_unopened(collection, opened);
    law_search_changes_nothing(collection, table, rows, opened, exercise);
    assert(exercise.wf()) by {
        let at = collection.exercises.index_of(exercise);
        assert(collection.exercises[at].wf());
    }
    progress::law_table_stays_readable(table, open, exercise);
    progress::law_count_is_number_of_rows(table, rows, opened);
    progress::law_count_is_number_of_rows(after, rows_after, opened_after);
    assert(after.dom() =~= table.dom().insert(key));
    assert forall|one: definition::OpenedView| #[trigger]
        opened_after.contains(one) <==> opened.contains(one) || one == (
        definition::OpenedView { definition: exercise, solved: false }) by {
        if opened_after.contains(one) {
            let k = opened_after.index_of(one);
            progress::law_opened_is_in_table(after, rows_after, opened_after, k);
            if one.definition != exercise {
                definition::law_names_tell_exercises_apart(one.definition, exercise);
                progress::law_table_is_read_back(table, rows, opened, one.definition);
            }
        }
        if opened.contains(one) {
            let k = opened.index_of(one);
            progress::law_opened_is_in_table(table, rows, opened, k);
            progress::law_table_is_read_back(after, rows_after, opened_after, one.definition);
        }
        if one.definition == exercise && !one.solved {
            progress::law_table_is_read_back(after, rows_after, opened_after, exercise);
        }
    }
}

/// The table after these exercises were closed.
pub open spec fn table_after_closing(
    table: progress::Table,
    closed: Seq<definition::DefinitionView>,
) -> progress::Table
    decreases closed.len(),
{
    if closed.len() == 0 {
        table
    } else {
        table_after_closing(
            progress::StatementView::close(closed[0]).effect(table),
            closed.drop_first(),
        )
    }
}

/// The table after the next exercise was searched for and opened, where `present` tells which
/// manifests exist.
pub open spec fn table_after_open_next(
    collection: collection::CollectionView,
    table: progress::Table,
    opened: Seq<definition::OpenedView>,
    present: spec_fn(definition::DefinitionView) -> bool,
) -> progress::Table {
    let (closed, next) = search_result(collection.unopened(opened), present);
    let searched = table_after_closing(table, closed);
    match next {
        Some(exercise) => progress::StatementView::open(exercise).effect(searched),
        None => searched,
    }
}

/// Closing exercises that are not opened leaves the table as it is.
proof fn lemma_closing_changes_nothing(
    collection: collection::CollectionView,
    table: progress::Table,
    rows: Seq<progress::RowView>,
    opened: Seq<definition::OpenedView>,
    closed: Seq<definition::DefinitionView>,
)
    requires
        collection.wf(),
        progress::table_readable(table),
        progress::lists(rows, table),
        progress::is_opened(rows, opened),
        forall|j: int|
            0 <= j < closed.len() ==> collection.unopened(opened).contains(#[trigger] closed[j]),
    ensures
        table_after_closing(table, closed) == table,
    decreases closed.len(),
{
    if closed.len() > 0 {
        law_search_changes_nothing(collection, table, rows, opened, closed[0]);
        lemma_closing_changes_nothing(collection, table, rows, opened, closed.drop_first());
    }
}

/// Opening the next exercise adds it to the opened ones as not solved and changes no other, so
/// that one more is opened; it is an exercise of the collection, which can be opened. Where
/// there is no next exercise, the table stays as it is.
pub proof fn law_open_next(
    collection: collection::CollectionView,
    table: progress::Table,
    rows: Seq<progress::RowView>,
    opened: Seq<definition::OpenedView>,
    present: spec_fn(definition::DefinitionView) -> bool,
    rows_after: Seq<progress::RowView>,
    opened_after: Seq<definition::OpenedView>,
)
    requires
        collection.wf(),
        progress::table_readable(table),
        progress::lists(rows, table),
        progress::is_opened(rows, opened),
        progress::lists(rows_after, table_after_open_next(collection, table, opened, present)),
        progress::is_opened(rows_after, opened_after),
    ensures
        match search_result(collection.unopened(opened), present).1 {
            Some(exercise) => {
                &&& collection.has(exercise.numbers())
                &&& forall|one: definition::OpenedView| #[trigger]
                    opened_after.contains(one) <==> opened.contains(one) || one == (
                    definition::OpenedView { definition: exercise, solved: false })
                &&& rows_after.len() == rows.len() + 1
                &&& opened_after.len() == opened.len() + 1
            },
            None => {
                &&& table_after_open_next(collection, table, opened, present) == table
                &&& forall|one: definition::OpenedView| #[trigger]
                    opened_after.contains(one) <==> opened.contains(one)
                &&& rows_after.len() == rows.len()
            },
        },
{
    let candidates = collection.unopened(opened);
    let (closed, next) = search_result(candidates, present);
    let k = law_search_finds_first_existing(candidates, present);
    assert forall|j: int| 0 <= j < closed.len() implies candidates.contains(
        #[trigger] closed[j],
    ) by {
        assert(closed[j] == candidates[j]);
    }
    lemma_closing_changes_nothing(collection, table, rows, opened, closed);
    match next {
        Some(exercise) => {
            assert(candidates.contains(candidates[k]));
            law_unopened(collection, opened);
            let at = collection.exercises.index_of(exercise);
            assert(collection.exercises[at].numbers() == exercise.numbers());
            law_opening_adds_one(
                collection,
                table,
                rows,
                opened,
                exercise,
                rows_after,
                opened_after,
            );
        },
        None => {
            progress::law_count_is_number_of_rows(table, rows, opened);
            progress::law_count_is_number_of_rows(table, rows_after, opened_after);
            assert forall|one: definition::OpenedView| #[trigger]
                opened_after.contains(one) <==> opened.contains(one) by {
                if opened_after.contains(one) {
                    let i = opened_after.index_of(one);
                    progress::law_opened_is_in_table(table, rows_after, opened_after, i);
                    progress::law_table_is_read_back(table, rows, opened, one.definition);
                }
                if opened.contains(one) {
                    let i = opened.index_of(one);
                    progress::law_opened_is_in_table(table, rows, opened, i);
                    progress::law_table_is_read_back(
                        table,
                        rows_after,
                        opened_after,
                        one.definition,
                    );
                }
            }
        },
    }
}

/// An exercise that was opened is not offered again, and fewer exercises are left to open.
pub proof fn law_opening_makes_progress(
    collection: collection::CollectionView,
    table: progress::Table,
    rows: Seq<progress::RowView>,
    opened: Seq<definition::OpenedView>,
    exercise: definition::DefinitionView,
    rows_after: Seq<progress::RowView>,
    opened_after: Seq<definition::OpenedView>,
)
    requires
        collection.wf(),
        progress::table_readable(table),
        progress::lists(rows, table),
        progress::is_opened(rows, opened),
        collection.unopened(opened).contains(exercise),
        progress::lists(rows_after, progress::StatementView::open(exercise).effect(table)),
        progress::is_opened(rows_after, opened_after),
    ensures
        forall|one: definition::DefinitionView| #[trigger]
            collection.unopened(opened_after).contains(one) <==> collection.unopened(
                opened,
            ).contains(one) && one != exercise,
        collection.unopened(opened_after).len() < collection.unopened(opened).len(),
{
    law_unopened(collection, opened);
    law_unopened(collection, opened_after);
    law_opening_adds_one(
        collection,
        table,
        rows,
        opened,
        exercise,
        rows_after,
        opened_after,
    );
    let new = definition::OpenedView { definition: exercise, solved: false };
    assert forall|one: definition::DefinitionView| collection.exercises.contains(one) implies (
    #[trigger] collection.is_open(opened_after, one) <==> collection.is_open(opened, one) || one
        == exercise) by {
        if collection.is_open(opened, one) {
            let k = choose|k: int|
                0 <= k < opened.len() && collection.stands_for(
                    (#[trigger] opened[k]).definition,
                    one,
                );
            assert(opened.contains(opened[k]));
            assert(opened_after.contains(opened[k]));
            let m = opened_after.index_of(opened[k]);
            assert(opened_after[m].definition == opened[k].definition);
        }
        if one == exercise {
            assert(opened_after.contains(new));
            let m = opened_after.index_of(new);
            assert(opened_after[m].definition == exercise);
        }
        if collection.is_open(opened_after, one) {
            let k = choose|k: int|
                0 <= k < opened_after.len() && collection.stands_for(
                    (#[trigger] opened_after[k]).definition,
                    one,
                );
            assert(opened_after.contains(opened_after[k]));
            if opened.contains(opened_after[k]) {
                let m = opened.index_of(opened_after[k]);
                assert(opened[m].definition == opened_after[k].definition);
            }
        }
    }
    lemma_filter_fewer(
        collection.exercises,
        |one: definition::DefinitionView| !collection.is_open(opened, one),
        |one: definition::DefinitionView| !collection.is_open(opened_after, one),
        exercise,
    );
}

/// An exercise of the collection is left to open exactly where it is not among the opened ones,
/// solved or not, and no exercise of another name that the collection does not have is opened
/// under its numbers. Where all opened exercises are in the collection, it is left exactly where
/// it is not opened.
pub proof fn law_left_is_what_is_not_opened(
    collection: collection::CollectionView,
    opened: Seq<definition::OpenedView>,
    exercise: definition::DefinitionView,
)
    requires
        collection.wf(),
    ensures
        collection.unopened(opened).contains(exercise) <==> {
            &&& collection.exercises.contains(exercise)
            &&& forall|k: int|
                0 <= k < opened.len() ==> (#[trigger] opened[k]).definition != exercise
            &&& forall|k: int|
                0 <= k < opened.len() && !collection.exercises.contains(
                    (#[trigger] opened[k]).definition,
                ) ==> opened[k].definition.chapter_number != exercise.chapter_number
                    || opened[k].definition.number != exercise.number
        },
        (forall|k: int|
            0 <= k < opened.len() ==> collection.exercises.contains(
                (#[trigger] opened[k]).definition,
            )) ==> (collection.unopened(opened).contains(exercise) <==> {
            &&& collection.exercises.contains(exercise)
            &&& forall|k: int|
                0 <= k < opened.len() ==> (#[trigger] opened[k]).definition != exercise
        }),
{
    law_unopened(collection, opened);
    if collection.is_open(opened, exercise) {
        let k = choose|k: int|
            0 <= k < opened.len() && collection.stands_for(
                (#[trigger] opened[k]).definition,
                exercise,
            );
        assert(opened[k].definition == exercise || !collection.exercises.contains(
            opened[k].definition,
        ));
    } else {
        assert(forall|k: int|
            0 <= k < opened.len() ==> !collection.stands_for(
                (#[trigger] opened[k]).definition,
                exercise,
            ));
    }
}

/// What is left to open depends on which exercises are opened alone: not on whether they are
/// solved, nor on the order in which they are given.
pub proof fn law_solved_does_not_matter(
    collection: collection::CollectionView,
    a: Seq<definition::OpenedView>,
    b: Seq<definition::OpenedView>,
)
    requires
        forall|i: int|
            0 <= i < a.len() ==> exists|j: int|
                0 <= j < b.len() && (#[trigger] a[i]).definition == (#[trigger] b[j]).definition,
        forall|j: int|
            0 <= j < b.len() ==> exists|i: int|
                0 <= i < a.len() && (#[trigger] a[i]).definition == (#[trigger] b[j]).definition,
    ensures
        collection.unopened(a) == collection.unopened(b),
{
    let in_a = |exercise: definition::DefinitionView| !collection.is_open(a, exercise);
    let in_b = |exercise: definition::DefinitionView| !collection.is_open(b, exercise);
    assert forall|exercise: definition::DefinitionView| #[trigger] in_a(exercise) == in_b(
        exercise,
    ) by {
        if collection.is_open(a, exercise) {
            let i = choose|i: int|
                0 <= i < a.len() && collection.stands_for(
                    (#[trigger] a[i]).definition,
                    exercise,
                );
            let j = choose|j: int|
                0 <= j < b.len() && a[i].definition == (#[trigger] b[j]).definition;
            assert(collection.stands_for(b[j].definition, exercise));
        }
        if collection.is_open(b, exercise) {
            let j = choose|j: int|
                0 <= j < b.len() && collection.stands_for(
                    (#[trigger] b[j]).definition,
                    exercise,
                );
            let i = choose|i: int|
                0 <= i < a.len() && (#[trigger] a[i]).definition == b[j].definition;
            assert(collection.stands_for(a[i].definition, exercise));
        }
    }
    assert(in_a =~= in_b);
}

/// Where the table holds exercises of the collection alone, an exercise of the collection that
/// has no row and exists is offered before every later one: what is found is it, or stands
/// before it.
pub proof fn law_no_exercise_is_passed_over(
    collection: collection::CollectionView,
    table: progress::Table,
    rows: Seq<progress::RowView>,
    opened: Seq<definition::OpenedView>,
    present: spec_fn(definition::DefinitionView) -> bool,
    i: int,
) -> (m: int)
    requires
        collection.wf(),
        progress::table_readable(table),
        progress::lists(rows, table),
        progress::is_opened(rows, opened),
        forall|exercise: definition::DefinitionView|
            exercise.wf() && table.contains_key(#[trigger] progress::key_of(exercise))
                ==> collection.exercises.contains(exercise),
        0 <= i < collection.exercises.len(),
        !table.contains_key(
            (collection.exercises[i].chapter(), collection.exercises[i].exercise()),
        ),
        present(collection.exercises[i]),
    ensures
        0 <= m <= i,
        search_result(collection.unopened(opened), present).1 == Some(collection.exercises[m]),
        present(collection.exercises[m]),
        !table.contains_key(
            (collection.exercises[m].chapter(), collection.exercises[m].exercise()),
        ),
{
    let exercise = collection.exercises[i];
    assert forall|k: int| 0 <= k < opened.len() implies collection.exercises.contains(
        (#[trigger] opened[k]).definition,
    ) && table.contains_key(progress::key_of(opened[k].definition)) by {
        progress::law_opened_is_in_table(table, rows, opened, k);
    }
    law_left_is_what_is_not_opened(collection, opened, exercise);
    law_next_is_first_unopened(collection, opened, present, i);
    law_unopened(collection, opened);
    assert(!collection.is_open(opened, exercise));
    let next = search_result(collection.unopened(opened), present).1->Some_0;
    let m = collection.exercises.index_of(next);
    law_search_changes_nothing(collection, table, rows, opened, next);
    m
}

} // verus!
