use vstd::prelude::*;

use crate::definition;
use crate::definition::OpenedExercise;
use crate::ordered;
use crate::progress;
use crate::progress::Statement;
use crate::verify;
use crate::verify::TestOutcome;

verus! {

/// A walk over the opened exercises that verifies them, up to the first that fails.
#[derive(Debug)]
pub struct SeekThePath {
    opened: Vec<OpenedExercise>,
    position: usize,
    recheck: bool,
}

/// What a [`SeekThePath`] says: the exercises that are still to be visited, and whether those
/// that are solved are verified again.
#[verifier::ext_equal]
pub struct SeekView {
    pub left: Seq<definition::OpenedView>,
    pub recheck: bool,
}

impl View for SeekThePath {
    type V = SeekView;

    closed spec fn view(&self) -> SeekView {
        SeekView {
            left: ordered::views(self.opened@).skip(self.position as int),
            recheck: self.recheck,
        }
    }
}

/// What is done with an opened exercise.
#[derive(Debug, PartialEq, Eq)]
pub enum Visit {
    /// The exercise is gone from the repository: run the statement, and go on.
    Close(Statement),
    /// The exercise was solved before: say so, and go on.
    Skip,
    /// The exercise is to be verified.
    Verify,
}

/// The exercise is passed over because it was solved before.
pub open spec fn is_skipped(exercise: definition::OpenedView, recheck: bool) -> bool {
    exercise.solved && !recheck
}

impl SeekThePath {
    /// The position is inside the opened exercises.
    pub closed spec fn wf(&self) -> bool {
        self.position <= self.opened.len()
    }

    /// A walk over all opened exercises.
    pub fn new(opened: Vec<OpenedExercise>, recheck: bool) -> (walk: Self)
        ensures
            walk.wf(),
            walk@ == (SeekView { left: ordered::views(opened@), recheck }),
    {
        SeekThePath { opened, position: 0, recheck }
    }

    /// The exercise to visit now. Where there is none, the walk has succeeded.
    pub fn current(&self) -> (exercise: Option<&OpenedExercise>)
        requires
            self.wf(),
        ensures
            match exercise {
                Some(first) => self@.left.len() > 0 && first@ == self@.left[0],
                None => self@.left.len() == 0,
            },
    {
        if self.position < self.opened.len() {
            Some(&self.opened[self.position])
        } else {
            None
        }
    }

    /// What is done with the current exercise, once it is known whether its manifest exists.
    pub fn visit(&self, present: bool) -> (visit: Visit)
        requires
            self.wf(),
            self@.left.len() > 0,
        ensures
            match visit {
                Visit::Close(statement) => !present && statement@ == progress::StatementView::close(
                    self@.left[0].definition,
                ),
                Visit::Skip => present && is_skipped(self@.left[0], self@.recheck),
                Visit::Verify => present && !is_skipped(self@.left[0], self@.recheck),
            },
    {
        let first = &self.opened[self.position];
        if !present {
            Visit::Close(Statement::close(&first.definition))
        } else if first.solved && !self.recheck {
            Visit::Skip
        } else {
            Visit::Verify
        }
    }

    /// Goes on to the exercise behind the current one.
    pub fn advance(&mut self)
        requires
            old(self).wf(),
            old(self)@.left.len() > 0,
        ensures
            final(self).wf(),
            final(self)@ == (SeekView { left: old(self)@.left.drop_first(), ..old(self)@ }),
    {
        self.position = self.position + 1;
    }

    /// Takes how the verification of the current exercise ended: a failure ends the walk, and
    /// is how it ends.
    pub fn record(&mut self, outcome: TestOutcome) -> (ended: Option<TestOutcome>)
        requires
            old(self).wf(),
            old(self)@.left.len() > 0,
        ensures
            final(self).wf(),
            match ended {
                Some(failure) => outcome@ is Failure && failure@ == outcome@ && final(self)@
                    == old(self)@,
                None => outcome@ is Success && final(self)@ == (SeekView {
                    left: old(self)@.left.drop_first(),
                    ..old(self)@
                }),
            },
    {
        match outcome {
            TestOutcome::Success => {
                self.advance();
                None
            },
            TestOutcome::Failure { command, details } => Some(
                TestOutcome::Failure { command, details },
            ),
        }
    }
}

/// The exercises that are gone from the repository, in order.
pub open spec fn missing(
    opened: Seq<definition::OpenedView>,
    present: spec_fn(definition::DefinitionView) -> bool,
) -> Seq<definition::DefinitionView>
    decreases opened.len(),
{
    if opened.len() == 0 {
        Seq::empty()
    } else {
        let rest = missing(opened.drop_first(), present);
        if present(opened[0].definition) {
            rest
        } else {
            seq![opened[0].definition] + rest
        }
    }
}

/// The exercise is to be verified.
pub open spec fn is_due(
    exercise: definition::OpenedView,
    recheck: bool,
    present: spec_fn(definition::DefinitionView) -> bool,
) -> bool {
    present(exercise.definition) && !is_skipped(exercise, recheck)
}

/// The exercises that are to be verified, in order.
pub open spec fn due(
    opened: Seq<definition::OpenedView>,
    recheck: bool,
    present: spec_fn(definition::DefinitionView) -> bool,
) -> Seq<definition::DefinitionView>
    decreases opened.len(),
{
    if opened.len() == 0 {
        Seq::empty()
    } else {
        let rest = due(opened.drop_first(), recheck, present);
        if is_due(opened[0], recheck, present) {
            seq![opened[0].definition] + rest
        } else {
            rest
        }
    }
}

/// What a walk does: the exercises that it closes, those that it verifies, and how it ends.
#[verifier::ext_equal]
pub struct SeekResult {
    pub closed: Seq<definition::DefinitionView>,
    pub verified: Seq<definition::DefinitionView>,
    pub outcome: verify::OutcomeView,
}

/// What a walk does, where `present` tells which manifests exist and `verdict` how the
/// verification of an exercise ends.
pub open spec fn seek_result(
    walk: SeekView,
    present: spec_fn(definition::DefinitionView) -> bool,
    verdict: spec_fn(definition::DefinitionView) -> verify::OutcomeView,
) -> SeekResult
    decreases walk.left.len(),
{
    if walk.left.len() == 0 {
        SeekResult {
            closed: Seq::empty(),
            verified: Seq::empty(),
            outcome: verify::OutcomeView::Success,
        }
    } else {
        let first = walk.left[0];
        let rest = seek_result(
            SeekView { left: walk.left.drop_first(), ..walk },
            present,
            verdict,
        );
        if !present(first.definition) {
            SeekResult { closed: seq![first.definition] + rest.closed, ..rest }
        } else if is_skipped(first, walk.recheck) {
            rest
        } else if verdict(first.definition) is Failure {
            SeekResult {
                closed: Seq::empty(),
                verified: seq![first.definition],
                outcome: verdict(first.definition),
            }
        } else {
            SeekResult { verified: seq![first.definition] + rest.verified, ..rest }
        }
    }
}

/// A walk ends with the first exercise that is due and fails, and succeeds where there is
/// none. Up to there, those that are gone are closed, and exactly those that are due are
/// verified: solved ones only where they are to be rechecked.
pub proof fn law_seek_ends_with_first_failure(
    walk: SeekView,
    present: spec_fn(definition::DefinitionView) -> bool,
    verdict: spec_fn(definition::DefinitionView) -> verify::OutcomeView,
) -> (k: int)
    ensures
        0 <= k <= walk.left.len(),
        forall|j: int|
            0 <= j < k && is_due(#[trigger] walk.left[j], walk.recheck, present) ==> verdict(
                walk.left[j].definition,
            ) is Success,
        ({
            let result = seek_result(walk, present, verdict);
            if k < walk.left.len() {
                &&& is_due(walk.left[k], walk.recheck, present)
                &&& result.outcome is Failure
                &&& result.outcome == verdict(walk.left[k].definition)
                &&& result.verified == due(walk.left.take(k + 1), walk.recheck, present)
                &&& result.closed == missing(walk.left.take(k), present)
            } else {
                &&& result.outcome is Success
                &&& result.verified == due(walk.left, walk.recheck, present)
                &&& result.closed == missing(walk.left, present)
            }
        }),
    decreases walk.left.len(),
{
    if walk.left.len() == 0 {
        0
    } else if is_due(walk.left[0], walk.recheck, present) && verdict(
        walk.left[0].definition,
    ) is Failure {
        let one = walk.left.take(1);
        assert(due(one.drop_first(), walk.recheck, present) =~= Seq::empty());
        0
    } else {
        let rest = SeekView { left: walk.left.drop_first(), ..walk };
        let k = law_seek_ends_with_first_failure(rest, present, verdict) + 1;
        assert forall|j: int|
            0 <= j < k && is_due(#[trigger] walk.left[j], walk.recheck, present) implies verdict(
            walk.left[j].definition,
        ) is Success by {
            if j > 0 {
                assert(walk.left[j] == rest.left[j - 1]);
            }
        }
        if k < walk.left.len() {
            assert(walk.left.take(k + 1).drop_first() =~= rest.left.take(k));
            assert(walk.left.take(k).drop_first() =~= rest.left.take(k - 1));
        }
        k
    }
}

/// An exercise that passed is skipped by the next walk, unless it is to be rechecked, and one
/// that failed is not.
pub proof fn law_outcome_is_remembered(
    table: progress::Table,
    exercise: definition::DefinitionView,
    outcome: verify::OutcomeView,
    rows: Seq<progress::RowView>,
    opened: Seq<definition::OpenedView>,
    recheck: bool,
    k: int,
)
    requires
        progress::table_readable(table),
        exercise.wf(),
        progress::lists(rows, verify::recorded(exercise, outcome).effect(table)),
        progress::is_opened(rows, opened),
        0 <= k < opened.len(),
        opened[k].definition == exercise,
    ensures
        opened[k].solved == (outcome is Success),
        is_skipped(opened[k], recheck) <==> outcome is Success && !recheck,
{
    let statement = verify::recorded(exercise, outcome);
    progress::law_table_stays_readable(table, statement, exercise);
    progress::law_opened_is_in_table(statement.effect(table), rows, opened, k);
}

/// What a walk makes of the table, where `present` tells which manifests exist and `verdict`
/// how the verification of an exercise ends: what is gone is closed, and each outcome is
/// recorded.
pub open spec fn table_after(
    table: progress::Table,
    walk: SeekView,
    present: spec_fn(definition::DefinitionView) -> bool,
    verdict: spec_fn(definition::DefinitionView) -> verify::OutcomeView,
) -> progress::Table
    decreases walk.left.len(),
{
    if walk.left.len() == 0 {
        table
    } else {
        let first = walk.left[0];
        let rest = SeekView { left: walk.left.drop_first(), ..walk };
        let exercise = first.definition;
        if !present(exercise) {
            table_after(
                progress::StatementView::close(exercise).effect(table),
                rest,
                present,
                verdict,
            )
        } else if is_skipped(first, walk.recheck) {
            table_after(table, rest, present, verdict)
        } else {
            let recorded = verify::recorded(exercise, verdict(exercise)).effect(table);
            if verdict(exercise) is Failure {
                recorded
            } else {
                table_after(recorded, rest, present, verdict)
            }
        }
    }
}

/// The exercise is in the table, as solved as it is said to be.
pub open spec fn is_in_table(table: progress::Table, one: definition::OpenedView) -> bool {
    let key = progress::key_of(one.definition);
    &&& one.definition.wf()
    &&& table.contains_key(key)
    &&& one.solved == (table[key] != 0)
}

/// The key of one exercise says the same in both tables.
pub open spec fn same_at(
    a: progress::Table,
    b: progress::Table,
    key: (Seq<char>, Seq<char>),
) -> bool {
    &&& a.contains_key(key) == b.contains_key(key)
    &&& a.contains_key(key) ==> a[key] == b[key]
}

/// What a walk that ends at `k` makes of an exercise at `j`.
pub open spec fn is_left_by_walk(
    table: progress::Table,
    after: progress::Table,
    exercise: definition::DefinitionView,
    present: bool,
    j: int,
    k: int,
) -> bool {
    let key = progress::key_of(exercise);
    if j < k {
        if present {
            after.contains_key(key) && after[key] != 0
        } else {
            !after.contains_key(key)
        }
    } else if j == k {
        after.contains_key(key) && after[key] == 0
    } else {
        same_at(table, after, key)
    }
}

/// What a walk makes of the table, exercise by exercise.
proof fn lemma_table_after(
    table: progress::Table,
    walk: SeekView,
    present: spec_fn(definition::DefinitionView) -> bool,
    verdict: spec_fn(definition::DefinitionView) -> verify::OutcomeView,
) -> (k: int)
    requires
        forall|i: int, j: int|
            0 <= i < j < walk.left.len() ==> (#[trigger] walk.left[i]).definition != (
            #[trigger] walk.left[j]).definition,
        forall|j: int| 0 <= j < walk.left.len() ==> is_in_table(table, #[trigger] walk.left[j]),
    ensures
        0 <= k <= walk.left.len(),
        k < walk.left.len() ==> {
            &&& seek_result(walk, present, verdict).outcome is Failure
            &&& seek_result(walk, present, verdict).outcome == verdict(walk.left[k].definition)
            &&& is_due(walk.left[k], walk.recheck, present)
        },
        k == walk.left.len() ==> seek_result(walk, present, verdict).outcome is Success,
        forall|j: int|
            0 <= j < walk.left.len() ==> is_left_by_walk(
                table,
                table_after(table, walk, present, verdict),
                (#[trigger] walk.left[j]).definition,
                present(walk.left[j].definition),
                j,
                k,
            ),
        forall|key: (Seq<char>, Seq<char>)|
            (forall|j: int|
                0 <= j < walk.left.len() ==> progress::key_of(
                    (#[trigger] walk.left[j]).definition,
                ) != key) ==> #[trigger] same_at(
                table,
                table_after(table, walk, present, verdict),
                key,
            ),
    decreases walk.left.len(),
{
    let after = table_after(table, walk, present, verdict);
    if walk.left.len() == 0 {
        0
    } else {
        let first = walk.left[0];
        let exercise = first.definition;
        let key = progress::key_of(exercise);
        let rest = SeekView { left: walk.left.drop_first(), ..walk };
        let gone = !present(exercise);
        let skipped = is_skipped(first, walk.recheck);
        let next = if gone {
            progress::StatementView::close(exercise).effect(table)
        } else if skipped {
            table
        } else {
            verify::recorded(exercise, verdict(exercise)).effect(table)
        };
        assert forall|j: int| 0 < j < walk.left.len() implies progress::key_of(
            (#[trigger] walk.left[j]).definition,
        ) != key by {
            definition::law_names_tell_exercises_apart(walk.left[j].definition, exercise);
        }
        assert(forall|other: (Seq<char>, Seq<char>)|
            other != key ==> #[trigger] same_at(table, next, other));
        if !gone && !skipped && verdict(exercise) is Failure {
            0
        } else {
            let k = lemma_table_after(next, rest, present, verdict) + 1;
            assert(same_at(next, after, key));
            assert forall|j: int| 0 <= j < walk.left.len() implies is_left_by_walk(
                table,
                after,
                (#[trigger] walk.left[j]).definition,
                present(walk.left[j].definition),
                j,
                k,
            ) by {
                if j > 0 {
                    assert(walk.left[j] == rest.left[j - 1]);
                }
            }
            assert forall|other: (Seq<char>, Seq<char>)|
                (forall|j: int|
                    0 <= j < walk.left.len() ==> progress::key_of(
                        (#[trigger] walk.left[j]).definition,
                    ) != other) implies #[trigger] same_at(table, after, other) by {
                assert(same_at(next, after, other));
            }
            k
        }
    }
}

/// The exercise is left as solved where it exists, and is not left where it does not.
pub open spec fn is_settled(
    table: progress::Table,
    after: progress::Table,
    exercise: definition::DefinitionView,
    present: bool,
) -> bool {
    let key = progress::key_of(exercise);
    &&& after.contains_key(key) <==> table.contains_key(key) && present
    &&& after.contains_key(key) ==> after[key] != 0
}

/// A walk over all opened exercises adds none. Where it succeeds, exactly those that exist are
/// left, and all of them are solved. Where it fails, it does so at the exercise at `k`, which
/// is left as not solved; those before it are left as solved where they exist and closed where
/// they do not, and those behind it are left as they were.
pub proof fn law_walk_updates_the_table(
    table: progress::Table,
    rows: Seq<progress::RowView>,
    opened: Seq<definition::OpenedView>,
    recheck: bool,
    present: spec_fn(definition::DefinitionView) -> bool,
    verdict: spec_fn(definition::DefinitionView) -> verify::OutcomeView,
) -> (k: int)
    requires
        progress::table_readable(table),
        progress::lists(rows, table),
        progress::is_opened(rows, opened),
    ensures
        ({
            let walk = SeekView { left: opened, recheck };
            let after = table_after(table, walk, present, verdict);
            let outcome = seek_result(walk, present, verdict).outcome;
            let failed = opened[k].definition;
            &&& after.dom().subset_of(table.dom())
            &&& outcome is Success ==> forall|exercise: definition::DefinitionView|
                exercise.wf() ==> #[trigger] is_settled(table, after, exercise, present(exercise))
            &&& outcome is Failure ==> {
                &&& 0 <= k < opened.len()
                &&& is_due(opened[k], recheck, present)
                &&& outcome == verdict(failed)
                &&& after.contains_key(progress::key_of(failed))
                &&& after[progress::key_of(failed)] == 0
                &&& forall|j: int|
                    0 <= j < k ==> is_settled(
                        table,
                        after,
                        (#[trigger] opened[j]).definition,
                        present(opened[j].definition),
                    )
                &&& forall|j: int|
                    k < j < opened.len() ==> same_at(
                        table,
                        after,
                        progress::key_of((#[trigger] opened[j]).definition),
                    )
            }
        }),
{
    let walk = SeekView { left: opened, recheck };
    assert forall|j: int| 0 <= j < opened.len() implies is_in_table(
        table,
        #[trigger] opened[j],
    ) by {
        progress::law_opened_is_in_table(table, rows, opened, j);
    }
    assert forall|i: int, j: int| 0 <= i < j < opened.len() implies (
    #[trigger] opened[i]).definition != (#[trigger] opened[j]).definition by {
        progress::law_opened_are_different(table, rows, opened, i, j);
    }
    let k = lemma_table_after(table, walk, present, verdict);
    let after = table_after(table, walk, present, verdict);
    assert forall|key: (Seq<char>, Seq<char>)| #[trigger] after.contains_key(key) implies
        table.contains_key(key) by {
        if forall|j: int|
            0 <= j < opened.len() ==> progress::key_of((#[trigger] opened[j]).definition) != key {
            assert(same_at(table, after, key));
        }
    }
    if k == opened.len() {
        assert forall|exercise: definition::DefinitionView| exercise.wf() implies #[trigger]
            is_settled(table, after, exercise, present(exercise)) by {
            let key = progress::key_of(exercise);
            if table.contains_key(key) {
                progress::law_table_is_read_back(table, rows, opened, exercise);
                let j = opened.index_of(
                    definition::OpenedView { definition: exercise, solved: table[key] != 0 },
                );
                assert(opened[j].definition == exercise);
            }
        }
    }
    k
}

/// An opened exercise that exists is verified exactly where it is not solved or all are to be
/// rechecked: whatever its numbers and its name are, and whatever the others are. One that does
/// not exist is closed instead.
pub proof fn law_what_is_due(
    opened: Seq<definition::OpenedView>,
    recheck: bool,
    present: spec_fn(definition::DefinitionView) -> bool,
    exercise: definition::DefinitionView,
)
    ensures
        due(opened, recheck, present).contains(exercise) <==> present(exercise) && exists|j: int|
            0 <= j < opened.len() && (#[trigger] opened[j]).definition == exercise && (recheck
                || !opened[j].solved),
        missing(opened, present).contains(exercise) <==> !present(exercise) && exists|j: int|
            0 <= j < opened.len() && (#[trigger] opened[j]).definition == exercise,
    decreases opened.len(),
{
    if opened.len() > 0 {
        let rest = opened.drop_first();
        let first = opened[0];
        law_what_is_due(rest, recheck, present, exercise);
        let due_rest = due(rest, recheck, present);
        let missing_rest = missing(rest, present);
        let due_all = due(opened, recheck, present);
        let missing_all = missing(opened, present);
        lemma_front_contains(first.definition, due_rest, exercise);
        lemma_front_contains(first.definition, missing_rest, exercise);
        if exists|j: int|
            0 <= j < rest.len() && (#[trigger] rest[j]).definition == exercise && (recheck
                || !rest[j].solved) {
            let j = choose|j: int|
                0 <= j < rest.len() && (#[trigger] rest[j]).definition == exercise && (recheck
                    || !rest[j].solved);
            assert(opened[j + 1] == rest[j]);
        }
        if exists|j: int| 0 <= j < rest.len() && (#[trigger] rest[j]).definition == exercise {
            let j = choose|j: int|
                0 <= j < rest.len() && (#[trigger] rest[j]).definition == exercise;
            assert(opened[j + 1] == rest[j]);
        }
        assert forall|j: int| 0 < j < opened.len() implies #[trigger] opened[j] == rest[
            j - 1
        ] by {}
    }
}

/// What is behind one in front is there, and the one in front is.
proof fn lemma_front_contains<A>(front: A, rest: Seq<A>, one: A)
    ensures
        (seq![front] + rest).contains(one) <==> one == front || rest.contains(one),
{
    let all = seq![front] + rest;
    if all.contains(one) {
        let i = all.index_of(one);
        if i > 0 {
            assert(rest[i - 1] == one);
        }
    }
    if rest.contains(one) {
        let i = rest.index_of(one);
        assert(all[i + 1] == one);
    }
    assert(all[0] == front);
}

} // verus!
