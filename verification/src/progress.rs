use vstd::prelude::*;

use crate::definition;
use crate::definition::{ExerciseDefinition, OpenedExercise};
use crate::ordered;

verus! {

/// A row of the progress database: an opened exercise, by how its chapter and it are written.
#[derive(Debug, PartialEq, Eq)]
pub struct ProgressRow {
    pub chapter: String,
    pub exercise: String,
    pub solved: i64,
}

/// What a [`ProgressRow`] says.
#[verifier::ext_equal]
pub struct RowView {
    pub chapter: Seq<char>,
    pub exercise: Seq<char>,
    pub solved: int,
}

impl View for ProgressRow {
    type V = RowView;

    open spec fn view(&self) -> RowView {
        RowView { chapter: self.chapter@, exercise: self.exercise@, solved: self.solved as int }
    }
}

impl RowView {
    /// What the row is found by.
    pub open spec fn key(self) -> (Seq<char>, Seq<char>) {
        (self.chapter, self.exercise)
    }

    /// The row names an exercise.
    pub open spec fn valid(self) -> bool {
        &&& definition::named_readable(self.chapter, self.exercise)
        &&& definition::definition_named(self.chapter, self.exercise) is Ok
    }

    /// The opened exercise that a valid row stands for.
    pub open spec fn opened(self) -> definition::OpenedView {
        definition::OpenedView {
            definition: definition::definition_named(self.chapter, self.exercise)->Ok_0,
            solved: self.solved != 0,
        }
    }
}

/// Every row names an exercise.
pub open spec fn rows_valid(rows: Seq<RowView>) -> bool {
    forall|i: int| 0 <= i < rows.len() ==> (#[trigger] rows[i]).valid()
}

/// The opened exercises that the rows stand for, in the order of the rows.
pub open spec fn opened_rows(rows: Seq<RowView>) -> Seq<definition::OpenedView> {
    rows.map_values(|row: RowView| row.opened())
}

/// `opened` is the set of the opened exercises that the rows stand for.
pub open spec fn is_opened(rows: Seq<RowView>, opened: Seq<definition::OpenedView>) -> bool {
    &&& ordered::is_set_of::<OpenedExercise>(opened_rows(rows), opened)
    &&& forall|i: int| 0 <= i < opened.len() ==> (#[trigger] opened[i]).definition.wf()
}

/// What valid rows stand for is well formed.
proof fn lemma_opened_wf(rows: Seq<RowView>, opened: Seq<definition::OpenedView>)
    requires
        rows_valid(rows),
        ordered::is_set_of::<OpenedExercise>(opened_rows(rows), opened),
    ensures
        is_opened(rows, opened),
{
    assert forall|k: int| 0 <= k < opened.len() implies (
    #[trigger] opened[k]).definition.wf() by {
        assert(opened.contains(opened[k]));
        let i = opened_rows(rows).index_of(opened[k]);
        assert(opened_rows(rows).contains(opened[k]));
        definition::lemma_named_wf(rows[i].chapter, rows[i].exercise);
    }
}

/// The set of all opened exercises, from the rows of the progress database.
pub fn opened_exercises(rows: &Vec<ProgressRow>) -> (opened: Vec<OpenedExercise>)
    requires
        rows_valid(ordered::views(rows@)),
    ensures
        is_opened(ordered::views(rows@), ordered::views(opened@)),
{
    let ghost all = ordered::views(rows@);
    let mut opened: Vec<OpenedExercise> = Vec::new();
    let mut i: usize = 0;
    while i < rows.len()
        invariant
            i <= rows.len(),
            all == ordered::views(rows@),
            rows_valid(all),
            ordered::is_set_of::<OpenedExercise>(
                opened_rows(all.take(i as int)),
                ordered::views(opened@),
            ),
        decreases rows.len() - i,
    {
        let row = &rows[i];
        assert(all[i as int] == row@);
        proof {
            definition::lemma_named_in_bytes(row.chapter@, row.exercise@);
        }
        let parsed = ExerciseDefinition::new(
            row.chapter.as_str().as_bytes(),
            row.exercise.as_str().as_bytes(),
        );
        if let Ok(definition) = parsed {
            let item = OpenedExercise { definition, solved: row.solved != 0 };
            let ghost before = opened_rows(all.take(i as int));
            assert(opened_rows(all.take(i + 1)) =~= before.push(item@));
            ordered::insert(&mut opened, item, Ghost(before));
        }
        i += 1;
    }
    assert(all.take(i as int) =~= all);
    proof {
        lemma_opened_wf(all, ordered::views(opened@));
    }
    opened
}

/// As [`opened_exercises`], for any rows: `None` where a row names no exercise.
pub fn checked_opened_exercises(rows: &Vec<ProgressRow>) -> (opened: Option<Vec<OpenedExercise>>)
    ensures
        opened is Some <==> rows_valid(ordered::views(rows@)),
        opened matches Some(inner) ==> is_opened(ordered::views(rows@), ordered::views(inner@)),
{
    let ghost all = ordered::views(rows@);
    let mut i: usize = 0;
    while i < rows.len()
        invariant
            i <= rows.len(),
            all == ordered::views(rows@),
            forall|k: int| 0 <= k < i ==> (#[trigger] all[k]).valid(),
        decreases rows.len() - i,
    {
        let row = &rows[i];
        assert(all[i as int] == row@);
        proof {
            definition::lemma_named_in_bytes(row.chapter@, row.exercise@);
        }
        let parsed = ExerciseDefinition::checked_new(
            row.chapter.as_str().as_bytes(),
            row.exercise.as_str().as_bytes(),
        );
        match parsed {
            Some(Ok(_)) => {},
            _ => {
                return None;
            },
        }
        i += 1;
    }
    Some(opened_exercises(rows))
}

/// A statement for the progress database. The database has one table, with a row for each
/// opened exercise.
#[derive(Debug, PartialEq, Eq)]
pub enum Statement {
    /// Makes the table, unless it is there.
    CreateTable,
    /// Asks for the number of rows.
    CountOpened,
    /// Asks for all rows.
    ListOpened,
    /// Adds an unsolved exercise, unless it is there.
    Open { chapter: String, exercise: String },
    /// Removes an exercise.
    Close { chapter: String, exercise: String },
    /// Marks an exercise as solved.
    MarkSolved { chapter: String, exercise: String },
    /// Marks an exercise as not solved.
    MarkUnsolved { chapter: String, exercise: String },
}

/// What a [`Statement`] says.
#[verifier::ext_equal]
pub enum StatementView {
    CreateTable,
    CountOpened,
    ListOpened,
    Open { chapter: Seq<char>, exercise: Seq<char> },
    Close { chapter: Seq<char>, exercise: Seq<char> },
    MarkSolved { chapter: Seq<char>, exercise: Seq<char> },
    MarkUnsolved { chapter: Seq<char>, exercise: Seq<char> },
}

impl View for Statement {
    type V = StatementView;

    open spec fn view(&self) -> StatementView {
        match self {
            Statement::CreateTable => StatementView::CreateTable,
            Statement::CountOpened => StatementView::CountOpened,
            Statement::ListOpened => StatementView::ListOpened,
            Statement::Open { chapter, exercise } => StatementView::Open {
                chapter: chapter@,
                exercise: exercise@,
            },
            Statement::Close { chapter, exercise } => StatementView::Close {
                chapter: chapter@,
                exercise: exercise@,
            },
            Statement::MarkSolved { chapter, exercise } => StatementView::MarkSolved {
                chapter: chapter@,
                exercise: exercise@,
            },
            Statement::MarkUnsolved { chapter, exercise } => StatementView::MarkUnsolved {
                chapter: chapter@,
                exercise: exercise@,
            },
        }
    }
}

/// The table of the progress database: for each opened exercise, by how its chapter and it
/// are written, the value of `solved`.
pub type Table = Map<(Seq<char>, Seq<char>), int>;

/// What an exercise's row is found by.
pub open spec fn key_of(exercise: definition::DefinitionView) -> (Seq<char>, Seq<char>) {
    (exercise.chapter(), exercise.exercise())
}

impl StatementView {
    /// The statement that opens an exercise.
    pub open spec fn open(exercise: definition::DefinitionView) -> Self {
        StatementView::Open { chapter: exercise.chapter(), exercise: exercise.exercise() }
    }

    /// The statement that closes an exercise.
    pub open spec fn close(exercise: definition::DefinitionView) -> Self {
        StatementView::Close { chapter: exercise.chapter(), exercise: exercise.exercise() }
    }

    /// The statement that marks an exercise as solved.
    pub open spec fn mark_as_solved(exercise: definition::DefinitionView) -> Self {
        StatementView::MarkSolved { chapter: exercise.chapter(), exercise: exercise.exercise() }
    }

    /// The statement that marks an exercise as not solved.
    pub open spec fn mark_as_unsolved(exercise: definition::DefinitionView) -> Self {
        StatementView::MarkUnsolved { chapter: exercise.chapter(), exercise: exercise.exercise() }
    }

    /// The text of the statement.
    pub open spec fn sql(self) -> Seq<char> {
        match self {
            StatementView::CreateTable =>
                "CREATE TABLE IF NOT EXISTS open_exercises (chapter TEXT NOT NULL, exercise TEXT NOT NULL, solved INTEGER NOT NULL, PRIMARY KEY (chapter, exercise))"@,
            StatementView::CountOpened => "SELECT COUNT(*) FROM open_exercises"@,
            StatementView::ListOpened => "SELECT chapter, exercise, solved FROM open_exercises"@,
            StatementView::Open { .. } =>
                "INSERT OR IGNORE INTO open_exercises (chapter, exercise, solved) VALUES (?1, ?2, 0)"@,
            StatementView::Close { .. } =>
                "DELETE FROM open_exercises WHERE chapter = ?1 AND exercise = ?2"@,
            StatementView::MarkSolved { .. } =>
                "UPDATE open_exercises SET solved = 1 WHERE chapter = ?1 AND exercise = ?2"@,
            StatementView::MarkUnsolved { .. } =>
                "UPDATE open_exercises SET solved = 0 WHERE chapter = ?1 AND exercise = ?2"@,
        }
    }

    /// What stands for the numbered parameters of the statement.
    pub open spec fn params(self) -> Seq<Seq<char>> {
        match self {
            StatementView::CreateTable => seq![],
            StatementView::CountOpened => seq![],
            StatementView::ListOpened => seq![],
            StatementView::Open { chapter, exercise } => seq![chapter, exercise],
            StatementView::Close { chapter, exercise } => seq![chapter, exercise],
            StatementView::MarkSolved { chapter, exercise } => seq![chapter, exercise],
            StatementView::MarkUnsolved { chapter, exercise } => seq![chapter, exercise],
        }
    }

    /// What the statement makes of the table. That the text which [`StatementView::sql`] gives
    /// does this, by what its parts mean in the database's language, is a law of the module
    /// `sql`; that the database gives them this meaning is not proved.
    pub open spec fn effect(self, table: Table) -> Table {
        match self {
            StatementView::CreateTable => table,
            StatementView::CountOpened => table,
            StatementView::ListOpened => table,
            StatementView::Open { chapter, exercise } => if table.contains_key((chapter, exercise)) {
                table
            } else {
                table.insert((chapter, exercise), 0)
            },
            StatementView::Close { chapter, exercise } => table.remove((chapter, exercise)),
            StatementView::MarkSolved { chapter, exercise } => if table.contains_key(
                (chapter, exercise),
            ) {
                table.insert((chapter, exercise), 1)
            } else {
                table
            },
            StatementView::MarkUnsolved { chapter, exercise } => if table.contains_key(
                (chapter, exercise),
            ) {
                table.insert((chapter, exercise), 0)
            } else {
                table
            },
        }
    }
}

impl Statement {
    /// The text of the statement.
    pub fn sql(&self) -> (text: &'static str)
        ensures
            text@ == self@.sql(),
    {
        match self {
            Statement::CreateTable =>
                "CREATE TABLE IF NOT EXISTS open_exercises (chapter TEXT NOT NULL, exercise TEXT NOT NULL, solved INTEGER NOT NULL, PRIMARY KEY (chapter, exercise))",
            Statement::CountOpened => "SELECT COUNT(*) FROM open_exercises",
            Statement::ListOpened => "SELECT chapter, exercise, solved FROM open_exercises",
            Statement::Open { .. } =>
                "INSERT OR IGNORE INTO open_exercises (chapter, exercise, solved) VALUES (?1, ?2, 0)",
            Statement::Close { .. } =>
                "DELETE FROM open_exercises WHERE chapter = ?1 AND exercise = ?2",
            Statement::MarkSolved { .. } =>
                "UPDATE open_exercises SET solved = 1 WHERE chapter = ?1 AND exercise = ?2",
            Statement::MarkUnsolved { .. } =>
                "UPDATE open_exercises SET solved = 0 WHERE chapter = ?1 AND exercise = ?2",
        }
    }

    /// What stands for the numbered parameters of the statement.
    pub fn params(&self) -> (values: Vec<String>)
        ensures
            ordered::views(values@) == self@.params(),
    {
        let mut values: Vec<String> = Vec::new();
        match self {
            Statement::CreateTable => {},
            Statement::CountOpened => {},
            Statement::ListOpened => {},
            Statement::Open { chapter, exercise } => {
                values.push(chapter.clone());
                values.push(exercise.clone());
            },
            Statement::Close { chapter, exercise } => {
                values.push(chapter.clone());
                values.push(exercise.clone());
            },
            Statement::MarkSolved { chapter, exercise } => {
                values.push(chapter.clone());
                values.push(exercise.clone());
            },
            Statement::MarkUnsolved { chapter, exercise } => {
                values.push(chapter.clone());
                values.push(exercise.clone());
            },
        }
        values
    }

    /// The statement that opens an exercise.
    pub fn open(exercise: &ExerciseDefinition) -> (statement: Self)
        ensures
            statement@ == StatementView::open(exercise@),
    {
        Statement::Open { chapter: exercise.chapter(), exercise: exercise.exercise() }
    }

    /// The statement that closes an exercise.
    pub fn close(exercise: &ExerciseDefinition) -> (statement: Self)
        ensures
            statement@ == StatementView::close(exercise@),
    {
        Statement::Close { chapter: exercise.chapter(), exercise: exercise.exercise() }
    }

    /// The statement that marks an exercise as solved.
    pub fn mark_as_solved(exercise: &ExerciseDefinition) -> (statement: Self)
        ensures
            statement@ == StatementView::mark_as_solved(exercise@),
    {
        Statement::MarkSolved { chapter: exercise.chapter(), exercise: exercise.exercise() }
    }

    /// The statement that marks an exercise as not solved.
    pub fn mark_as_unsolved(exercise: &ExerciseDefinition) -> (statement: Self)
        ensures
            statement@ == StatementView::mark_as_unsolved(exercise@),
    {
        Statement::MarkUnsolved { chapter: exercise.chapter(), exercise: exercise.exercise() }
    }
}

/// `rows` are the rows of the table, each once, in some order.
pub open spec fn lists(rows: Seq<RowView>, table: Table) -> bool {
    &&& forall|i: int|
        0 <= i < rows.len() ==> table.contains_key((#[trigger] rows[i]).key())
            && table[rows[i].key()] == rows[i].solved
    &&& forall|key: (Seq<char>, Seq<char>)| #[trigger]
        table.contains_key(key) ==> exists|i: int|
            0 <= i < rows.len() && (#[trigger] rows[i]).key() == key
    &&& forall|i: int, j: int|
        0 <= i < j < rows.len() ==> (#[trigger] rows[i]).key() != (#[trigger] rows[j]).key()
}

/// The key is how an exercise is written.
pub open spec fn is_exercise_key(key: (Seq<char>, Seq<char>)) -> bool {
    exists|exercise: definition::DefinitionView| exercise.wf() && #[trigger] key_of(exercise) == key
}

/// Every key of the table is how an exercise is written.
pub open spec fn table_readable(table: Table) -> bool {
    forall|key: (Seq<char>, Seq<char>)| #[trigger]
        table.contains_key(key) ==> is_exercise_key(key)
}

/// The statement is about this exercise.
pub open spec fn is_about(
    statement: StatementView,
    exercise: definition::DefinitionView,
) -> bool {
    ||| statement == StatementView::open(exercise)
    ||| statement == StatementView::close(exercise)
    ||| statement == StatementView::mark_as_solved(exercise)
    ||| statement == StatementView::mark_as_unsolved(exercise)
}

/// A table that holds exercises alone, as an empty one does, still does after any statement
/// about an exercise.
pub proof fn law_table_stays_readable(
    table: Table,
    statement: StatementView,
    exercise: definition::DefinitionView,
)
    requires
        exercise.wf(),
        is_about(statement, exercise),
    ensures
        table_readable(Map::empty()),
        table_readable(table) ==> table_readable(statement.effect(table)),
{
    assert(is_exercise_key(key_of(exercise)));
}

/// The rows of a table that holds exercises alone can all be read.
pub proof fn law_listed_rows_are_valid(table: Table, rows: Seq<RowView>)
    requires
        table_readable(table),
        lists(rows, table),
    ensures
        rows_valid(rows),
{
    assert forall|i: int| 0 <= i < rows.len() implies (#[trigger] rows[i]).valid() by {
        lemma_row_of_exercise(table, rows, i);
    }
}

/// Each row of a table that holds exercises alone stands for the exercise that is written so.
proof fn lemma_row_of_exercise(table: Table, rows: Seq<RowView>, i: int) -> (exercise:
    definition::DefinitionView)
    requires
        table_readable(table),
        lists(rows, table),
        0 <= i < rows.len(),
    ensures
        exercise.wf(),
        key_of(exercise) == rows[i].key(),
        rows[i].valid(),
        rows[i].opened().definition == exercise,
{
    let key = rows[i].key();
    let exercise = choose|exercise: definition::DefinitionView|
        exercise.wf() && #[trigger] key_of(exercise) == key;
    definition::law_names_round_trip(exercise);
    exercise
}

/// What is in the table is among the opened exercises, as solved as the table says.
pub proof fn law_table_is_read_back(
    table: Table,
    rows: Seq<RowView>,
    opened: Seq<definition::OpenedView>,
    exercise: definition::DefinitionView,
)
    requires
        table_readable(table),
        lists(rows, table),
        is_opened(rows, opened),
        exercise.wf(),
        table.contains_key(key_of(exercise)),
    ensures
        opened.contains(
            definition::OpenedView {
                definition: exercise,
                solved: table[key_of(exercise)] != 0,
            },
        ),
{
    let all = opened_rows(rows);
    let key = key_of(exercise);
    let i = choose|i: int| 0 <= i < rows.len() && (#[trigger] rows[i]).key() == key;
    let found = lemma_row_of_exercise(table, rows, i);
    definition::law_names_tell_exercises_apart(found, exercise);
    assert(all.contains(all[i]));
    assert(opened.contains(all[i]));
}

/// The opened exercises are all in the table.
pub proof fn law_opened_is_in_table(
    table: Table,
    rows: Seq<RowView>,
    opened: Seq<definition::OpenedView>,
    k: int,
)
    requires
        table_readable(table),
        lists(rows, table),
        is_opened(rows, opened),
        0 <= k < opened.len(),
    ensures
        table.contains_key(key_of(opened[k].definition)),
        opened[k].solved == (table[key_of(opened[k].definition)] != 0),
{
    let all = opened_rows(rows);
    assert(opened.contains(opened[k]));
    assert(all.contains(opened[k]));
    let i = all.index_of(opened[k]);
    lemma_row_of_exercise(table, rows, i);
}

/// Opening an exercise puts it into the table as not solved, unless it is there: then nothing
/// changes, however often it is opened.
pub proof fn law_open(table: Table, exercise: definition::DefinitionView)
    ensures
        ({
            let after = StatementView::open(exercise).effect(table);
            &&& after.contains_key(key_of(exercise))
            &&& table.contains_key(key_of(exercise)) ==> after == table
            &&& !table.contains_key(key_of(exercise)) ==> after[key_of(exercise)] == 0
            &&& StatementView::open(exercise).effect(after) == after
        }),
{
}

/// Closing an exercise takes it out of the table, and undoes that it was opened.
pub proof fn law_close(table: Table, exercise: definition::DefinitionView)
    ensures
        ({
            let close = StatementView::close(exercise);
            &&& !close.effect(table).contains_key(key_of(exercise))
            &&& !table.contains_key(key_of(exercise)) ==> close.effect(table) == table
            &&& !table.contains_key(key_of(exercise)) ==> close.effect(
                StatementView::open(exercise).effect(table),
            ) == table
        }),
{
}

/// An exercise that was closed is not among the opened ones any more.
pub proof fn law_closed_is_not_opened(
    table: Table,
    exercise: definition::DefinitionView,
    rows: Seq<RowView>,
    opened: Seq<definition::OpenedView>,
    k: int,
)
    requires
        table_readable(table),
        exercise.wf(),
        lists(rows, StatementView::close(exercise).effect(table)),
        is_opened(rows, opened),
        0 <= k < opened.len(),
    ensures
        opened[k].definition != exercise,
{
    let close = StatementView::close(exercise);
    law_table_stays_readable(table, close, exercise);
    law_opened_is_in_table(close.effect(table), rows, opened, k);
}

/// Marking an exercise as solved or not changes no more than that, and only where the exercise
/// is open: the last mark stays.
pub proof fn law_mark(table: Table, exercise: definition::DefinitionView)
    ensures
        ({
            let key = key_of(exercise);
            let solved = StatementView::mark_as_solved(exercise);
            let unsolved = StatementView::mark_as_unsolved(exercise);
            &&& solved.effect(table).dom() == table.dom()
            &&& unsolved.effect(table).dom() == table.dom()
            &&& table.contains_key(key) ==> solved.effect(table)[key] != 0
            &&& table.contains_key(key) ==> unsolved.effect(table)[key] == 0
            &&& solved.effect(unsolved.effect(table)) == solved.effect(table)
            &&& unsolved.effect(solved.effect(table)) == unsolved.effect(table)
        }),
{
}

/// A statement about one exercise leaves all others as they are.
pub proof fn law_other_exercises_are_untouched(
    table: Table,
    statement: StatementView,
    exercise: definition::DefinitionView,
    other: definition::DefinitionView,
)
    requires
        exercise.wf(),
        other.wf(),
        exercise != other,
        is_about(statement, exercise),
    ensures
        statement.effect(table).contains_key(key_of(other)) == table.contains_key(key_of(other)),
        table.contains_key(key_of(other)) ==> statement.effect(table)[key_of(other)]
            == table[key_of(other)],
{
    definition::law_names_tell_exercises_apart(exercise, other);
}

/// The rows of a table that holds exercises alone stand for different exercises.
proof fn lemma_rows_differ(table: Table, rows: Seq<RowView>)
    requires
        table_readable(table),
        lists(rows, table),
    ensures
        forall|i: int, j: int|
            0 <= i < j < rows.len() ==> #[trigger] rows[i].opened().definition
                != #[trigger] rows[j].opened().definition,
        opened_rows(rows).no_duplicates(),
{
    assert forall|i: int, j: int| 0 <= i < j < rows.len() implies #[trigger] rows[
        i
    ].opened().definition != #[trigger] rows[j].opened().definition by {
        lemma_row_of_exercise(table, rows, i);
        lemma_row_of_exercise(table, rows, j);
    }
    let all = opened_rows(rows);
    assert forall|i: int, j: int| 0 <= i < all.len() && 0 <= j < all.len() && i != j implies all[i]
        != all[j] by {
        assert(all[i] == rows[i].opened() && all[j] == rows[j].opened());
        assert(rows[i].opened().definition != rows[j].opened().definition);
    }
}

/// No exercise is among the opened ones twice.
pub proof fn law_opened_are_different(
    table: Table,
    rows: Seq<RowView>,
    opened: Seq<definition::OpenedView>,
    i: int,
    j: int,
)
    requires
        table_readable(table),
        lists(rows, table),
        is_opened(rows, opened),
        0 <= i < j < opened.len(),
    ensures
        opened[i].definition != opened[j].definition,
{
    ordered::lemma_set_in_order::<OpenedExercise>(opened_rows(rows), opened);
    law_opened_is_in_table(table, rows, opened, i);
    law_opened_is_in_table(table, rows, opened, j);
}

/// The number of rows is the number of exercises in the table, and as many are opened.
pub proof fn law_count_is_number_of_rows(
    table: Table,
    rows: Seq<RowView>,
    opened: Seq<definition::OpenedView>,
)
    requires
        table_readable(table),
        lists(rows, table),
        is_opened(rows, opened),
    ensures
        table.dom().finite(),
        rows.len() == table.dom().len(),
        opened.len() == rows.len(),
{
    let keys = rows.map_values(|row: RowView| row.key());
    assert(keys.no_duplicates());
    keys.unique_seq_to_set();
    assert(keys.to_set() =~= table.dom()) by {
        assert forall|key: (Seq<char>, Seq<char>)| table.dom().contains(key) implies keys.to_set().contains(
            key,
        ) by {
            let i = choose|i: int| 0 <= i < rows.len() && (#[trigger] rows[i]).key() == key;
            assert(keys[i] == key);
        }
    }
    lemma_rows_differ(table, rows);
    ordered::lemma_set_len::<OpenedExercise>(opened_rows(rows), opened);
}

/// What the statements about an exercise make of the table, row by row. Opening adds a row for
/// the exercise that says that it is not solved, where there is none. Closing removes its row.
/// Marking it sets whether it is solved in its row, where there is one. A row with another
/// chapter or another exercise stays as it is.
pub proof fn law_statements_change_one_row(
    table: Table,
    exercise: definition::DefinitionView,
    chapter: Seq<char>,
    name: Seq<char>,
)
    ensures
        ({
            let open = StatementView::open(exercise).effect(table);
            let close = StatementView::close(exercise).effect(table);
            let solved = StatementView::mark_as_solved(exercise).effect(table);
            let unsolved = StatementView::mark_as_unsolved(exercise).effect(table);
            let here = table.contains_key((chapter, name));
            if chapter == exercise.chapter() && name == exercise.exercise() {
                &&& open.contains_key((chapter, name))
                &&& open[(chapter, name)] == if here { table[(chapter, name)] } else { 0 }
                &&& !close.contains_key((chapter, name))
                &&& solved.contains_key((chapter, name)) == here
                &&& here ==> solved[(chapter, name)] == 1
                &&& unsolved.contains_key((chapter, name)) == here
                &&& here ==> unsolved[(chapter, name)] == 0
            } else {
                &&& open.contains_key((chapter, name)) == here
                &&& close.contains_key((chapter, name)) == here
                &&& solved.contains_key((chapter, name)) == here
                &&& unsolved.contains_key((chapter, name)) == here
                &&& here ==> open[(chapter, name)] == table[(chapter, name)]
                &&& here ==> close[(chapter, name)] == table[(chapter, name)]
                &&& here ==> solved[(chapter, name)] == table[(chapter, name)]
                &&& here ==> unsolved[(chapter, name)] == table[(chapter, name)]
            }
        }),
        StatementView::CreateTable.effect(table) == table,
        StatementView::CountOpened.effect(table) == table,
        StatementView::ListOpened.effect(table) == table,
{
}

/// Rows can be read exactly where the names in each define an exercise and their numbers can be
/// read.
pub proof fn law_rows_that_can_be_read(rows: Seq<ProgressRow>)
    ensures
        rows_valid(ordered::views(rows)) <==> forall|i: int|
            0 <= i < rows.len() ==> {
                &&& definition::named_readable((#[trigger] rows[i]).chapter@, rows[i].exercise@)
                &&& definition::definition_named(rows[i].chapter@, rows[i].exercise@) is Ok
            },
{
    let all = ordered::views(rows);
    assert(forall|i: int| 0 <= i < rows.len() ==> #[trigger] all[i] == rows[i]@);
    if rows_valid(all) {
        assert forall|i: int| 0 <= i < rows.len() implies {
            &&& definition::named_readable((#[trigger] rows[i]).chapter@, rows[i].exercise@)
            &&& definition::definition_named(rows[i].chapter@, rows[i].exercise@) is Ok
        } by {
            assert(all[i].valid());
        }
    }
}

/// A row that can be read stands for the exercise that its names define, solved unless it says
/// zero. Opened are exactly the exercises that the rows stand for, each once, sorted by the
/// number of the chapter and then by the number of the exercise.
pub proof fn law_opened_are_what_the_rows_say(
    rows: Seq<ProgressRow>,
    opened: Seq<definition::OpenedView>,
    one: definition::OpenedView,
)
    requires
        is_opened(ordered::views(rows), opened),
    ensures
        rows_valid(ordered::views(rows)) ==> (opened.contains(one) <==> exists|i: int|
            {
                &&& 0 <= i < rows.len()
                &&& definition::definition_named(
                    (#[trigger] rows[i]).chapter@,
                    rows[i].exercise@,
                ) == Ok::<definition::DefinitionView, definition::NameError>(one.definition)
                &&& one.solved == (rows[i].solved != 0)
            }),
        forall|i: int, j: int|
            0 <= i < j < opened.len() ==> {
                let first = (#[trigger] opened[i]).definition;
                let second = (#[trigger] opened[j]).definition;
                &&& opened[i] != opened[j]
                &&& first.chapter_number <= second.chapter_number
                &&& first.chapter_number == second.chapter_number ==> first.number
                    <= second.number
            },
{
    let all = ordered::views(rows);
    let items = opened_rows(all);
    ordered::lemma_set_in_order::<OpenedExercise>(items, opened);
    assert(forall|i: int| 0 <= i < rows.len() ==> #[trigger] all[i] == rows[i]@);
    if rows_valid(all) {
        if opened.contains(one) {
            assert(items.contains(one));
            let i = items.index_of(one);
            assert(items[i] == all[i].opened());
            assert(all[i] == rows[i]@);
        }
        if exists|i: int|
            {
                &&& 0 <= i < rows.len()
                &&& definition::definition_named(
                    (#[trigger] rows[i]).chapter@,
                    rows[i].exercise@,
                ) == Ok::<definition::DefinitionView, definition::NameError>(one.definition)
                &&& one.solved == (rows[i].solved != 0)
            } {
            let i = choose|i: int|
                {
                    &&& 0 <= i < rows.len()
                    &&& definition::definition_named(
                        (#[trigger] rows[i]).chapter@,
                        rows[i].exercise@,
                    ) == Ok::<definition::DefinitionView, definition::NameError>(one.definition)
                    &&& one.solved == (rows[i].solved != 0)
                };
            assert(items[i] == one);
            assert(items.contains(one));
        }
    }
    assert forall|i: int, j: int| 0 <= i < j < opened.len() implies {
        let first = (#[trigger] opened[i]).definition;
        let second = (#[trigger] opened[j]).definition;
        &&& opened[i] != opened[j]
        &&& first.chapter_number <= second.chapter_number
        &&& first.chapter_number == second.chapter_number ==> first.number <= second.number
    } by {
        assert(!definition::comes_before(
            opened[j].definition.numbers(),
            opened[i].definition.numbers(),
        ));
    }
}

} // verus!
