use vstd::prelude::*;

use crate::progress;
use crate::text;

verus! {

/// A column of the table.
pub enum Column {
    Chapter,
    Exercise,
    Solved,
}

/// What a column holds in a row.
pub enum Value {
    Text(Seq<char>),
    Number(int),
}

/// A value in a statement: a numbered parameter, counted from one, or a number.
pub enum Operand {
    Param(nat),
    Number(nat),
}

/// A column is compared with a value.
pub struct Comparison {
    pub column: Column,
    pub operand: Operand,
}

/// A statement of the database's language, taken apart. Those with conditions are about the
/// rows that meet all of them.
pub enum Sql {
    /// Makes a table with these columns, in which no two rows have the same values in all
    /// columns of the key.
    CreateTable { columns: Seq<Column>, key: Seq<Column> },
    /// Counts rows.
    Count { conditions: Seq<Comparison> },
    /// Gives the values of these columns, for each row.
    Select { columns: Seq<Column>, conditions: Seq<Comparison> },
    /// Adds a row, unless one with the same key is there.
    InsertOrIgnore { columns: Seq<Column>, values: Seq<Operand> },
    /// Removes rows.
    Delete { conditions: Seq<Comparison> },
    /// Sets a column of rows.
    Update { column: Column, value: Operand, conditions: Seq<Comparison> },
}

/// The texts one after the other, with `between` between them.
pub open spec fn separated(texts: Seq<Seq<char>>, between: Seq<char>) -> Seq<char>
    decreases texts.len(),
{
    if texts.len() == 0 {
        Seq::empty()
    } else if texts.len() == 1 {
        texts[0]
    } else {
        separated(texts.drop_last(), between) + between + texts.last()
    }
}

impl Column {
    /// The name of the column.
    pub open spec fn name(self) -> Seq<char> {
        match self {
            Column::Chapter => "chapter"@,
            Column::Exercise => "exercise"@,
            Column::Solved => "solved"@,
        }
    }

    /// The column as a new table declares it.
    pub open spec fn declared(self) -> Seq<char> {
        match self {
            Column::Chapter => self.name() + " TEXT NOT NULL"@,
            Column::Exercise => self.name() + " TEXT NOT NULL"@,
            Column::Solved => self.name() + " INTEGER NOT NULL"@,
        }
    }

    /// What a row holds in the column.
    pub open spec fn of(self, row: progress::RowView) -> Value {
        match self {
            Column::Chapter => Value::Text(row.chapter),
            Column::Exercise => Value::Text(row.exercise),
            Column::Solved => Value::Number(row.solved),
        }
    }

    /// The row with a value put into the column.
    pub open spec fn set(self, row: progress::RowView, value: Value) -> progress::RowView {
        match (self, value) {
            (Column::Chapter, Value::Text(chapter)) => progress::RowView { chapter, ..row },
            (Column::Exercise, Value::Text(exercise)) => progress::RowView { exercise, ..row },
            (Column::Solved, Value::Number(solved)) => progress::RowView { solved, ..row },
            _ => row,
        }
    }
}

/// The names of columns.
pub open spec fn names(columns: Seq<Column>) -> Seq<char> {
    separated(columns.map_values(|column: Column| column.name()), ", "@)
}

impl Operand {
    /// How the value is written.
    pub open spec fn text(self) -> Seq<char> {
        match self {
            Operand::Param(n) => "?"@ + text::decimal(n),
            Operand::Number(n) => text::decimal(n),
        }
    }

    /// What the value is, with these parameters.
    pub open spec fn value(self, params: Seq<Seq<char>>) -> Value {
        match self {
            Operand::Param(n) => Value::Text(params[n - 1]),
            Operand::Number(n) => Value::Number(n as int),
        }
    }
}

impl Comparison {
    /// How the comparison is written.
    pub open spec fn text(self) -> Seq<char> {
        self.column.name() + " = "@ + self.operand.text()
    }

    /// The row holds the value in the column.
    pub open spec fn met(self, row: progress::RowView, params: Seq<Seq<char>>) -> bool {
        self.column.of(row) == self.operand.value(params)
    }
}

/// How conditions are written.
pub open spec fn conditions_text(conditions: Seq<Comparison>) -> Seq<char> {
    if conditions.len() == 0 {
        Seq::empty()
    } else {
        " WHERE "@ + separated(conditions.map_values(|one: Comparison| one.text()), " AND "@)
    }
}

/// The row meets all conditions.
pub open spec fn all_met(
    conditions: Seq<Comparison>,
    row: progress::RowView,
    params: Seq<Seq<char>>,
) -> bool {
    forall|i: int| 0 <= i < conditions.len() ==> (#[trigger] conditions[i]).met(row, params)
}

/// A row with these values in these columns.
pub open spec fn new_row(
    columns: Seq<Column>,
    values: Seq<Operand>,
    params: Seq<Seq<char>>,
) -> progress::RowView
    decreases columns.len(),
{
    if columns.len() == 0 {
        progress::RowView { chapter: Seq::empty(), exercise: Seq::empty(), solved: 0 }
    } else {
        columns.last().set(
            new_row(columns.drop_last(), values.drop_last(), params),
            values.last().value(params),
        )
    }
}

/// The rows have the same values in all columns of the key.
pub open spec fn same_key(
    key: Seq<Column>,
    a: progress::RowView,
    b: progress::RowView,
) -> bool {
    forall|i: int| 0 <= i < key.len() ==> (#[trigger] key[i]).of(a) == key[i].of(b)
}

impl Sql {
    /// How the statement is written, about the table of the opened exercises.
    pub open spec fn text(self) -> Seq<char> {
        match self {
            Sql::CreateTable { columns, key } => "CREATE TABLE IF NOT EXISTS open_exercises ("@
                + separated(columns.map_values(|column: Column| column.declared()), ", "@)
                + ", PRIMARY KEY ("@ + names(key) + "))"@,
            Sql::Count { conditions } => "SELECT COUNT(*) FROM open_exercises"@ + conditions_text(
                conditions,
            ),
            Sql::Select { columns, conditions } => "SELECT "@ + names(columns)
                + " FROM open_exercises"@ + conditions_text(conditions),
            Sql::InsertOrIgnore { columns, values } => "INSERT OR IGNORE INTO open_exercises ("@
                + names(columns) + ") VALUES ("@ + separated(
                values.map_values(|value: Operand| value.text()),
                ", "@,
            ) + ")"@,
            Sql::Delete { conditions } => "DELETE FROM open_exercises"@ + conditions_text(
                conditions,
            ),
            Sql::Update { column, value, conditions } => "UPDATE open_exercises SET "@
                + column.name() + " = "@ + value.text() + conditions_text(conditions),
        }
    }

    /// The rows that a query is about.
    pub open spec fn asks_for(
        self,
        params: Seq<Seq<char>>,
        row: progress::RowView,
    ) -> bool {
        match self {
            Sql::Count { conditions } => all_met(conditions, row, params),
            Sql::Select { columns, conditions } => all_met(conditions, row, params),
            _ => false,
        }
    }

    /// The row is in the table after the statement was run on a table that holds `rows`, whose
    /// key these columns are.
    pub open spec fn leaves(
        self,
        params: Seq<Seq<char>>,
        key: Seq<Column>,
        rows: spec_fn(progress::RowView) -> bool,
        row: progress::RowView,
    ) -> bool {
        match self {
            Sql::CreateTable { .. } => rows(row),
            Sql::Count { .. } => rows(row),
            Sql::Select { .. } => rows(row),
            Sql::InsertOrIgnore { columns, values } => {
                let new = new_row(columns, values, params);
                rows(row) || row == new && forall|one: progress::RowView| #[trigger]
                    rows(one) ==> !same_key(key, one, new)
            },
            Sql::Delete { conditions } => rows(row) && !all_met(conditions, row, params),
            Sql::Update { column, value, conditions } => {
                ||| rows(row) && !all_met(conditions, row, params)
                ||| exists|one: progress::RowView|
                    {
                        &&& #[trigger] rows(one)
                        &&& all_met(conditions, one, params)
                        &&& row == column.set(one, value.value(params))
                    }
            },
        }
    }
}

/// The rows of a table.
pub open spec fn rows_of(table: progress::Table) -> spec_fn(progress::RowView) -> bool {
    |row: progress::RowView| table.contains_key(row.key()) && table[row.key()] == row.solved
}

/// Both columns that an exercise is found by are compared with the two parameters.
proof fn lemma_conditions() -> (conditions: Seq<Comparison>)
    ensures
        conditions_text(conditions) == " WHERE chapter = ?1 AND exercise = ?2"@,
        forall|row: progress::RowView, params: Seq<Seq<char>>| #[trigger]
            all_met(conditions, row, params) <==> row.chapter == params[0] && row.exercise
                == params[1],
{
    let conditions = seq![
        Comparison { column: Column::Chapter, operand: Operand::Param(1) },
        Comparison { column: Column::Exercise, operand: Operand::Param(2) },
    ];
    reveal_strlit(" WHERE chapter = ?1 AND exercise = ?2");
    reveal_strlit(" WHERE ");
    reveal_strlit(" AND ");
    reveal_strlit(" = ");
    reveal_strlit("?");
    reveal_strlit("chapter");
    reveal_strlit("exercise");
    let texts = conditions.map_values(|one: Comparison| one.text());
    assert(text::decimal(1) =~= seq!['1']);
    assert(text::decimal(2) =~= seq!['2']);
    assert(texts.drop_last().len() == 1);
    assert(texts.drop_last()[0] == conditions[0].text());
    assert(texts.last() == conditions[1].text());
    assert(separated(texts.drop_last(), " AND "@) == texts[0]);
    assert(conditions_text(conditions) =~= " WHERE chapter = ?1 AND exercise = ?2"@);
    assert forall|row: progress::RowView, params: Seq<Seq<char>>| #[trigger]
        all_met(conditions, row, params) <==> row.chapter == params[0] && row.exercise
            == params[1] by {
        if all_met(conditions, row, params) {
            assert(conditions[0].met(row, params));
            assert(conditions[1].met(row, params));
        }
    }
    conditions
}

/// Three columns, by name.
proof fn lemma_three_names(columns: Seq<Column>)
    requires
        columns == seq![Column::Chapter, Column::Exercise, Column::Solved],
    ensures
        names(columns) == "chapter, exercise, solved"@,
{
    reveal_strlit("chapter, exercise, solved");
    reveal_strlit("chapter");
    reveal_strlit("exercise");
    reveal_strlit("solved");
    reveal_strlit(", ");
    let texts = columns.map_values(|column: Column| column.name());
    let two = texts.drop_last();
    assert(two.drop_last().len() == 1);
    assert(separated(two.drop_last(), ", "@) == texts[0]);
    assert(separated(two, ", "@) == texts[0] + ", "@ + texts[1]);
    assert(names(columns) =~= "chapter, exercise, solved"@);
}

/// The table has a column for the chapter, one for the exercise and one for whether it is
/// solved, and a row is found by the first two.
proof fn lemma_create_table() -> (create: Sql)
    ensures
        create.text() == progress::StatementView::CreateTable.sql(),
        create matches Sql::CreateTable { columns, key } && columns == seq![
            Column::Chapter,
            Column::Exercise,
            Column::Solved,
        ] && key == seq![Column::Chapter, Column::Exercise],
{
    let columns = seq![Column::Chapter, Column::Exercise, Column::Solved];
    let key = seq![Column::Chapter, Column::Exercise];
    let create = Sql::CreateTable { columns, key };
    reveal_strlit("CREATE TABLE IF NOT EXISTS open_exercises (chapter TEXT NOT NULL, exercise TEXT NOT NULL, solved INTEGER NOT NULL, PRIMARY KEY (chapter, exercise))");
    reveal_strlit("CREATE TABLE IF NOT EXISTS open_exercises (");
    reveal_strlit(", PRIMARY KEY (");
    reveal_strlit("))");
    reveal_strlit(" TEXT NOT NULL");
    reveal_strlit(" INTEGER NOT NULL");
    reveal_strlit("chapter");
    reveal_strlit("exercise");
    reveal_strlit("solved");
    reveal_strlit(", ");
    let texts = columns.map_values(|column: Column| column.declared());
    let two = texts.drop_last();
    assert(two.drop_last().len() == 1);
    assert(separated(two.drop_last(), ", "@) == texts[0]);
    assert(separated(two, ", "@) == texts[0] + ", "@ + texts[1]);
    let key_names = key.map_values(|column: Column| column.name());
    assert(key_names.drop_last().len() == 1);
    assert(separated(key_names.drop_last(), ", "@) == key_names[0]);
    assert(names(key) == "chapter"@ + ", "@ + "exercise"@);
    assert(create.text() =~= progress::StatementView::CreateTable.sql());
    create
}

/// The text of the statement that opens an exercise.
proof fn lemma_insert() -> (insert: Sql)
    ensures
        insert.text()
            == "INSERT OR IGNORE INTO open_exercises (chapter, exercise, solved) VALUES (?1, ?2, 0)"@,
        insert matches Sql::InsertOrIgnore { columns, values } && forall|params: Seq<Seq<char>>|
            #[trigger] new_row(columns, values, params) == (progress::RowView {
                chapter: params[0],
                exercise: params[1],
                solved: 0,
            }),
{
    let columns = seq![Column::Chapter, Column::Exercise, Column::Solved];
    let values = seq![Operand::Param(1), Operand::Param(2), Operand::Number(0)];
    let insert = Sql::InsertOrIgnore { columns, values };
    lemma_three_names(columns);
    reveal_strlit("INSERT OR IGNORE INTO open_exercises (chapter, exercise, solved) VALUES (?1, ?2, 0)");
    reveal_strlit("INSERT OR IGNORE INTO open_exercises (");
    reveal_strlit("chapter, exercise, solved");
    reveal_strlit(") VALUES (");
    reveal_strlit(")");
    reveal_strlit(", ");
    reveal_strlit("?");
    assert(text::decimal(0) =~= seq!['0']);
    assert(text::decimal(1) =~= seq!['1']);
    assert(text::decimal(2) =~= seq!['2']);
    let texts = values.map_values(|value: Operand| value.text());
    let two = texts.drop_last();
    assert(two.drop_last().len() == 1);
    assert(separated(two.drop_last(), ", "@) == texts[0]);
    assert(separated(two, ", "@) == texts[0] + ", "@ + texts[1]);
    assert(insert.text()
        =~= "INSERT OR IGNORE INTO open_exercises (chapter, exercise, solved) VALUES (?1, ?2, 0)"@);
    assert forall|params: Seq<Seq<char>>| #[trigger] new_row(columns, values, params) == (
    progress::RowView { chapter: params[0], exercise: params[1], solved: 0 }) by {
        reveal_with_fuel(new_row, 4);
    }
    insert
}

/// The text of a statement that marks an exercise.
proof fn lemma_update(solved: nat) -> (update: Sql)
    requires
        solved == 0 || solved == 1,
    ensures
        solved == 1 ==> update.text()
            == "UPDATE open_exercises SET solved = 1 WHERE chapter = ?1 AND exercise = ?2"@,
        solved == 0 ==> update.text()
            == "UPDATE open_exercises SET solved = 0 WHERE chapter = ?1 AND exercise = ?2"@,
        update matches Sql::Update { column, value, conditions } && column == Column::Solved
            && value == Operand::Number(solved) && forall|
            row: progress::RowView,
            params: Seq<Seq<char>>,
        | #[trigger]
            all_met(conditions, row, params) <==> row.chapter == params[0] && row.exercise
                == params[1],
{
    let conditions = lemma_conditions();
    let update = Sql::Update { column: Column::Solved, value: Operand::Number(solved), conditions };
    reveal_strlit("UPDATE open_exercises SET solved = 1 WHERE chapter = ?1 AND exercise = ?2");
    reveal_strlit("UPDATE open_exercises SET solved = 0 WHERE chapter = ?1 AND exercise = ?2");
    reveal_strlit("UPDATE open_exercises SET ");
    reveal_strlit("solved");
    reveal_strlit(" = ");
    reveal_strlit(" WHERE chapter = ?1 AND exercise = ?2");
    assert(text::decimal(0) =~= seq!['0']);
    assert(text::decimal(1) =~= seq!['1']);
    if solved == 1 {
        assert(update.text()
            =~= "UPDATE open_exercises SET solved = 1 WHERE chapter = ?1 AND exercise = ?2"@);
    } else {
        assert(update.text()
            =~= "UPDATE open_exercises SET solved = 0 WHERE chapter = ?1 AND exercise = ?2"@);
    }
    update
}

/// The text of the statement that closes an exercise.
proof fn lemma_delete() -> (delete: Sql)
    ensures
        delete.text() == "DELETE FROM open_exercises WHERE chapter = ?1 AND exercise = ?2"@,
        delete matches Sql::Delete { conditions } && forall|
            row: progress::RowView,
            params: Seq<Seq<char>>,
        | #[trigger]
            all_met(conditions, row, params) <==> row.chapter == params[0] && row.exercise
                == params[1],
{
    let conditions = lemma_conditions();
    let delete = Sql::Delete { conditions };
    reveal_strlit("DELETE FROM open_exercises WHERE chapter = ?1 AND exercise = ?2");
    reveal_strlit("DELETE FROM open_exercises");
    reveal_strlit(" WHERE chapter = ?1 AND exercise = ?2");
    assert(delete.text() =~= "DELETE FROM open_exercises WHERE chapter = ?1 AND exercise = ?2"@);
    delete
}

/// The texts of the two queries: they ask for all rows.
proof fn lemma_queries() -> (queries: (Sql, Sql))
    ensures
        queries.0.text() == "SELECT COUNT(*) FROM open_exercises"@,
        queries.0 == (Sql::Count { conditions: Seq::empty() }),
        queries.1.text() == "SELECT chapter, exercise, solved FROM open_exercises"@,
        queries.1 == (Sql::Select {
            columns: seq![Column::Chapter, Column::Exercise, Column::Solved],
            conditions: Seq::empty(),
        }),
{
    let columns = seq![Column::Chapter, Column::Exercise, Column::Solved];
    let count = Sql::Count { conditions: Seq::empty() };
    let list = Sql::Select { columns, conditions: Seq::empty() };
    lemma_three_names(columns);
    reveal_strlit("SELECT chapter, exercise, solved FROM open_exercises");
    reveal_strlit("SELECT ");
    reveal_strlit("chapter, exercise, solved");
    reveal_strlit(" FROM open_exercises");
    assert(count.text() =~= "SELECT COUNT(*) FROM open_exercises"@);
    assert(list.text() =~= "SELECT chapter, exercise, solved FROM open_exercises"@);
    (count, list)
}

/// The text of each statement, taken apart and run with its parameters on the rows of a table,
/// leaves exactly the rows that its effect says. The key that decides whether a row is already
/// there is the one that the text which makes the table declares.
pub proof fn law_text_does_what_the_effect_says(
    statement: progress::StatementView,
    table: progress::Table,
) -> (taken_apart: (Sql, Sql))
    ensures
        ({
            let (create, sql) = taken_apart;
            &&& create.text() == progress::StatementView::CreateTable.sql()
            &&& create is CreateTable
            &&& sql.text() == statement.sql()
            &&& forall|row: progress::RowView| #[trigger]
                rows_of(statement.effect(table))(row) <==> sql.leaves(
                    statement.params(),
                    create->key,
                    rows_of(table),
                    row,
                )
        }),
{
    let create = lemma_create_table();
    let key = create->key;
    let params = statement.params();
    let rows = rows_of(table);
    let after = statement.effect(table);
    assert(key[0] == Column::Chapter && key[1] == Column::Exercise);
    let sql = match statement {
        progress::StatementView::CreateTable => create,
        progress::StatementView::CountOpened => lemma_queries().0,
        progress::StatementView::ListOpened => lemma_queries().1,
        progress::StatementView::Open { .. } => lemma_insert(),
        progress::StatementView::Close { .. } => lemma_delete(),
        progress::StatementView::MarkSolved { .. } => lemma_update(1),
        progress::StatementView::MarkUnsolved { .. } => lemma_update(0),
    };
    assert forall|row: progress::RowView| #[trigger] rows_of(after)(row) <==> sql.leaves(
        params,
        key,
        rows,
        row,
    ) by {
        match statement {
            progress::StatementView::Open { chapter, exercise } => {
                let new = progress::RowView { chapter, exercise, solved: 0 };
                assert forall|one: progress::RowView| same_key(key, one, new) <==> one.key()
                    == new.key() by {
                    if same_key(key, one, new) {
                        assert(key[0].of(one) == key[0].of(new));
                        assert(key[1].of(one) == key[1].of(new));
                    }
                }
                if table.contains_key(new.key()) {
                    let there = progress::RowView { solved: table[new.key()], ..new };
                    assert(rows(there));
                    assert(same_key(key, there, new));
                }
            },
            progress::StatementView::MarkSolved { chapter, exercise } => {
                lemma_updated(table, chapter, exercise, 1, sql, key, row);
            },
            progress::StatementView::MarkUnsolved { chapter, exercise } => {
                lemma_updated(table, chapter, exercise, 0, sql, key, row);
            },
            _ => {},
        }
    }
    (create, sql)
}

/// What an update leaves.
proof fn lemma_updated(
    table: progress::Table,
    chapter: Seq<char>,
    exercise: Seq<char>,
    solved: nat,
    update: Sql,
    key: Seq<Column>,
    row: progress::RowView,
)
    requires
        update matches Sql::Update { column, value, conditions } && column == Column::Solved
            && value == Operand::Number(solved) && forall|
            row: progress::RowView,
            params: Seq<Seq<char>>,
        | #[trigger]
            all_met(conditions, row, params) <==> row.chapter == params[0] && row.exercise
                == params[1],
    ensures
        update.leaves(seq![chapter, exercise], key, rows_of(table), row) <==> if row.key() == (
            chapter,
            exercise,
        ) {
            table.contains_key(row.key()) && row.solved == solved
        } else {
            rows_of(table)(row)
        },
{
    let params = seq![chapter, exercise];
    let rows = rows_of(table);
    let conditions = update->Update_conditions;
    assert(all_met(conditions, row, params) <==> row.key() == (chapter, exercise));
    if table.contains_key((chapter, exercise)) {
        let there = progress::RowView { chapter, exercise, solved: table[(chapter, exercise)] };
        assert(rows(there));
        assert(all_met(conditions, there, params));
        assert(Column::Solved.set(there, Value::Number(solved as int)) == (progress::RowView {
            solved: solved as int,
            ..there
        }));
    }
}

/// Both queries are about all rows, and the one that lists them gives the chapter, the exercise
/// and whether it is solved, in this order.
pub proof fn law_queries_ask_for_all_rows() -> (queries: (Sql, Sql))
    ensures
        queries.0.text() == progress::StatementView::CountOpened.sql(),
        queries.0 is Count,
        queries.1.text() == progress::StatementView::ListOpened.sql(),
        queries.1 is Select,
        queries.1->Select_columns == seq![Column::Chapter, Column::Exercise, Column::Solved],
        forall|row: progress::RowView| #[trigger]
            queries.0.asks_for(progress::StatementView::CountOpened.params(), row),
        forall|row: progress::RowView| #[trigger]
            queries.1.asks_for(progress::StatementView::ListOpened.params(), row),
{
    lemma_queries()
}

} // verus!
