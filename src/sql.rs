//! Statement text for the destination store: quoted identifiers, table
//! definitions, and inserts whose rows are checked against the schema.
use vstd::prelude::*;
use crate::event::LoadError;
use crate::row::{cells_view, CellsView, Row};
use crate::schema::{columns_view, table_view, tables_view, Column, ColumnsView, Schema, Table, TableView};
use crate::text::same_text;
use crate::value::{binds_to, column_type_name, sql_type_name, value_binds_to, value_type, ValueView};

verus! {

/// `s` with each backquote doubled.
pub open spec fn escape_backquotes(s: Seq<char>) -> Seq<char>
    decreases s.len(),
{
    if s.len() == 0 {
        Seq::empty()
    } else if s.last() == '`' {
        escape_backquotes(s.drop_last()) + seq!['`', '`']
    } else {
        escape_backquotes(s.drop_last()).push(s.last())
    }
}

/// An identifier between backquotes, inner backquotes doubled.
pub open spec fn quoted(s: Seq<char>) -> Seq<char> {
    seq!['`'] + escape_backquotes(s) + seq!['`']
}

/// Quotes an arbitrary string as an identifier: it is put between
/// backquotes and each backquote inside it is doubled, so that no name can
/// end the identifier early.
pub fn get_valid_sqlite_identifier(s: &str) -> (r: String)
    ensures
        r@ == quoted(s@),
{
    let mut r = String::from_str("`");
    let n = s.unicode_len();
    let mut i: usize = 0;
    proof {
        reveal_strlit("`");
        assert(s@.take(0) =~= Seq::<char>::empty());
        assert(r@ =~= seq!['`'] + escape_backquotes(s@.take(0)));
    }
    while i < n
        invariant
            n == s@.len(),
            i <= n,
            r@ == seq!['`'] + escape_backquotes(s@.take(i as int)),
        decreases n - i,
    {
        let c = s.substring_char(i, i + 1);
        let ghost pre = r@;
        assert(s@.take(i + 1).drop_last() =~= s@.take(i as int));
        assert(c@ =~= seq![s@[i as int]]);
        r.append(c);
        if s.get_char(i) == '`' {
            r.append("`");
            proof {
                reveal_strlit("`");
                assert(r@ =~= seq!['`'] + escape_backquotes(s@.take(i + 1)));
            }
        } else {
            assert(r@ =~= seq!['`'] + escape_backquotes(s@.take(i + 1)));
        }
        i = i + 1;
    }
    assert(s@.take(n as int) =~= s@);
    r.append("`");
    proof {
        reveal_strlit("`");
        assert(r@ =~= quoted(s@));
    }
    r
}

/// The column definitions of a table: each quoted name and its type,
/// separated by commas.
pub open spec fn column_definitions(c: ColumnsView) -> Seq<char>
    decreases c.len(),
{
    if c.len() == 0 {
        Seq::empty()
    } else {
        let sep: Seq<char> = if c.len() > 1 {
            ", "@
        } else {
            Seq::empty()
        };
        column_definitions(c.drop_last()) + sep + quoted(c.last().0) + " "@ + column_type_name(c.last().1)
    }
}

/// The statement that creates table `t` unless it exists.
pub open spec fn create_statement(t: TableView) -> Seq<char> {
    "CREATE TABLE IF NOT EXISTS "@ + quoted(t.0) + " ("@ + column_definitions(t.1) + ");"@
}

/// The statement that creates `t` unless it exists, with each column and
/// its storage type.
pub fn create_table_statement(t: &Table) -> (r: String)
    ensures
        r@ == create_statement(table_view(*t)),
{
    let ghost cv = columns_view(t.columns@);
    let mut r = String::from_str("CREATE TABLE IF NOT EXISTS ");
    let name = get_valid_sqlite_identifier(t.name.as_str());
    r.append(name.as_str());
    r.append(" (");
    let ghost head = r@;
    let n = t.columns.len();
    let mut i: usize = 0;
    assert(cv.take(0) =~= Seq::empty());
    assert(r@ =~= head + column_definitions(cv.take(0)));
    while i < n
        invariant
            n == t.columns@.len(),
            cv == columns_view(t.columns@),
            i <= n,
            r@ == head + column_definitions(cv.take(i as int)),
        decreases n - i,
    {
        assert(cv.take(i + 1).drop_last() =~= cv.take(i as int));
        assert(cv.take(i + 1).last() == (t.columns@[i as int].name@, t.columns@[i as int].ty));
        if i > 0 {
            r.append(", ");
        }
        let q = get_valid_sqlite_identifier(t.columns[i].name.as_str());
        r.append(q.as_str());
        r.append(" ");
        r.append(sql_type_name(t.columns[i].ty));
        assert(r@ =~= head + column_definitions(cv.take(i + 1)));
        i = i + 1;
    }
    assert(cv.take(n as int) =~= cv);
    r.append(");");
    assert(r@ =~= create_statement(table_view(*t)));
    r
}

/// The columns of the first table named `name`.
pub open spec fn table_columns(v: Seq<TableView>, name: Seq<char>) -> Option<ColumnsView>
    decreases v.len(),
{
    if v.len() == 0 {
        None
    } else if v[0].0 == name {
        Some(v[0].1)
    } else {
        table_columns(v.drop_first(), name)
    }
}

/// The declared type of the first column named `name`.
pub open spec fn column_type(c: ColumnsView, name: Seq<char>) -> Option<crate::value::StorageType>
    decreases c.len(),
{
    if c.len() == 0 {
        None
    } else if c[0].0 == name {
        Some(c[0].1)
    } else {
        column_type(c.drop_first(), name)
    }
}

/// Why one cell cannot be bound into columns `c`, if it cannot.
pub open spec fn cell_error(c: ColumnsView, cell: (Seq<char>, ValueView)) -> Option<LoadError> {
    match column_type(c, cell.0) {
        None => Some(LoadError::UnknownColumn),
        Some(t) => if binds_to(value_type(cell.1), t) {
            None
        } else {
            Some(LoadError::TypeMismatch)
        },
    }
}

/// Why the cells cannot be bound into columns `c`: the first cell that
/// cannot decides.
pub open spec fn cells_error(c: ColumnsView, cells: CellsView) -> Option<LoadError>
    decreases cells.len(),
{
    if cells.len() == 0 {
        None
    } else {
        match cells_error(c, cells.drop_last()) {
            Some(e) => Some(e),
            None => cell_error(c, cells.last()),
        }
    }
}

/// Why a row for `table` cannot be inserted into the store whose tables are
/// `v`, if it cannot.
pub open spec fn insert_error(v: Seq<TableView>, table: Seq<char>, cells: CellsView) -> Option<LoadError> {
    match table_columns(v, table) {
        None => Some(LoadError::UnknownTable),
        Some(c) => cells_error(c, cells),
    }
}

/// The quoted column names of a row, separated by commas.
pub open spec fn column_names(cells: CellsView) -> Seq<char>
    decreases cells.len(),
{
    if cells.len() == 0 {
        Seq::empty()
    } else {
        let sep: Seq<char> = if cells.len() > 1 {
            ", "@
        } else {
            Seq::empty()
        };
        column_names(cells.drop_last()) + sep + quoted(cells.last().0)
    }
}

/// `n` parameter marks, separated by commas.
pub open spec fn placeholders(n: nat) -> Seq<char>
    decreases n,
{
    if n == 0 {
        Seq::empty()
    } else {
        let sep: Seq<char> = if n > 1 {
            ", "@
        } else {
            Seq::empty()
        };
        placeholders((n - 1) as nat) + sep + "?"@
    }
}

/// The parameterised statement that inserts a row of `cells` into `table`;
/// the values are bound in the cells' order.
pub open spec fn insert_statement(table: Seq<char>, cells: CellsView) -> Seq<char> {
    "INSERT INTO "@ + quoted(table) + " ("@ + column_names(cells) + ") VALUES ("@ + placeholders(
        cells.len(),
    ) + ")"@
}

fn find_table<'a>(schema: &'a Schema, name: &str) -> (r: Option<&'a Table>)
    ensures
        r matches Some(t) ==> table_columns(tables_view(schema.tables@), name@) == Some(columns_view(t.columns@)),
        r is None ==> table_columns(tables_view(schema.tables@), name@) is None,
{
    let ghost v = tables_view(schema.tables@);
    let n = schema.tables.len();
    let mut i: usize = 0;
    assert(v.subrange(0, n as int) =~= v);
    while i < n
        invariant
            n == schema.tables@.len(),
            v == tables_view(schema.tables@),
            i <= n,
            table_columns(v, name@) == table_columns(v.subrange(i as int, n as int), name@),
        decreases n - i,
    {
        let ghost rest = v.subrange(i as int, n as int);
        assert(rest[0] == v[i as int]);
        if same_text(schema.tables[i].name.as_str(), name) {
            return Some(&schema.tables[i]);
        }
        assert(rest.drop_first() =~= v.subrange(i + 1, n as int));
        i = i + 1;
    }
    None
}

fn find_column_type(c: &Vec<Column>, name: &str) -> (r: Option<crate::value::StorageType>)
    ensures
        r == column_type(columns_view(c@), name@),
{
    let ghost v = columns_view(c@);
    let n = c.len();
    let mut i: usize = 0;
    assert(v.subrange(0, n as int) =~= v);
    while i < n
        invariant
            n == c@.len(),
            v == columns_view(c@),
            i <= n,
            column_type(v, name@) == column_type(v.subrange(i as int, n as int), name@),
        decreases n - i,
    {
        let ghost rest = v.subrange(i as int, n as int);
        assert(rest[0] == v[i as int]);
        if same_text(c[i].name.as_str(), name) {
            return Some(c[i].ty);
        }
        assert(rest.drop_first() =~= v.subrange(i + 1, n as int));
        i = i + 1;
    }
    None
}

/// Checks a row against the schema and gives the statement that inserts
/// it. Fails where the row's table is not in the schema, where a column is
/// not declared by its table, or where a value cannot be bound into its
/// column's type; the first failing cell decides.
pub fn prepare_insert(schema: &Schema, row: &Row) -> (r: Result<String, LoadError>)
    ensures
        match insert_error(tables_view(schema.tables@), row.table@, cells_view(row.cells@)) {
            Some(e) => r == Err::<String, LoadError>(e),
            None => r matches Ok(q) && q@ == insert_statement(row.table@, cells_view(row.cells@)),
        },
{
    let ghost cv = cells_view(row.cells@);
    let t = match find_table(schema, row.table.as_str()) {
        Some(t) => t,
        None => {
            return Err(LoadError::UnknownTable);
        },
    };
    let ghost cols = columns_view(t.columns@);
    let mut names = String::new();
    let mut marks = String::new();
    let n = row.cells.len();
    let mut i: usize = 0;
    assert(cv.take(0) =~= Seq::empty());
    assert(names@ =~= column_names(cv.take(0)));
    assert(marks@ =~= placeholders(0));
    while i < n
        invariant
            n == row.cells@.len(),
            cv == cells_view(row.cells@),
            cols == columns_view(t.columns@),
            table_columns(tables_view(schema.tables@), row.table@) == Some(cols),
            i <= n,
            cells_error(cols, cv.take(i as int)) is None,
            names@ == column_names(cv.take(i as int)),
            marks@ == placeholders(i as nat),
        decreases n - i,
    {
        assert(cv.take(i + 1).drop_last() =~= cv.take(i as int));
        assert(cv.take(i + 1).last() == cv[i as int]);
        assert(cv[i as int] == (row.cells@[i as int].0@, crate::value::value_view(row.cells@[i as int].1)));
        match find_column_type(&t.columns, row.cells[i].0.as_str()) {
            None => {
                proof {
                    lemma_error_stays(cols, cv, i as int + 1);
                }
                return Err(LoadError::UnknownColumn);
            },
            Some(ty) => {
                if !value_binds_to(&row.cells[i].1, ty) {
                    proof {
                        lemma_error_stays(cols, cv, i as int + 1);
                    }
                    return Err(LoadError::TypeMismatch);
                }
            },
        }
        if i > 0 {
            names.append(", ");
            marks.append(", ");
        }
        let q = get_valid_sqlite_identifier(row.cells[i].0.as_str());
        names.append(q.as_str());
        marks.append("?");
        assert(names@ =~= column_names(cv.take(i + 1)));
        assert(marks@ =~= placeholders((i + 1) as nat));
        i = i + 1;
    }
    assert(cv.take(n as int) =~= cv);
    let mut r = String::from_str("INSERT INTO ");
    let tq = get_valid_sqlite_identifier(row.table.as_str());
    r.append(tq.as_str());
    r.append(" (");
    r.append(names.as_str());
    r.append(") VALUES (");
    r.append(marks.as_str());
    r.append(")");
    assert(r@ =~= insert_statement(row.table@, cv));
    Ok(r)
}

/// Once a prefix of a row's cells is refused, the whole row is refused
/// with the same error.
pub proof fn lemma_error_stays(c: ColumnsView, cells: CellsView, k: int)
    requires
        0 <= k <= cells.len(),
        cells_error(c, cells.take(k)) is Some,
    ensures
        cells_error(c, cells) == cells_error(c, cells.take(k)),
    decreases cells.len() - k,
{
    if k < cells.len() {
        assert(cells.take(k + 1).drop_last() =~= cells.take(k));
        lemma_error_stays(c, cells, k + 1);
    } else {
        assert(cells.take(k) =~= cells);
    }
}

/// Every cell of `cells` names a declared column of `c` and binds into its
/// type.
pub open spec fn cells_fit(c: ColumnsView, cells: CellsView) -> bool {
    forall|i: int| 0 <= i < cells.len() ==> #[trigger] cell_error(c, cells[i]) is None
}

proof fn lemma_cells_error_none(c: ColumnsView, cells: CellsView)
    ensures
        cells_error(c, cells) is None <==> cells_fit(c, cells),
    decreases cells.len(),
{
    if cells.len() > 0 {
        let p = cells.drop_last();
        lemma_cells_error_none(c, p);
        if cells_fit(c, cells) {
            assert forall|i: int| 0 <= i < p.len() implies #[trigger] cell_error(c, p[i]) is None by {
                assert(p[i] == cells[i]);
            }
            assert(cells.last() == cells[cells.len() - 1]);
        }
        if cells_error(c, cells) is None {
            assert forall|i: int| 0 <= i < cells.len() implies #[trigger] cell_error(c, cells[i]) is None by {
                if i < p.len() {
                    assert(p[i] == cells[i]);
                }
            }
        }
    }
}

/// A row is inserted only where its table is in the schema and each of its
/// columns is declared there with a type that takes its value; a row with a
/// column the schema pass never saw is refused, not shortened.
pub proof fn lemma_inserted_columns_declared(v: Seq<TableView>, table: Seq<char>, cells: CellsView)
    ensures
        insert_error(v, table, cells) is None <==> (table_columns(v, table) matches Some(c) && cells_fit(c, cells)),
        (table_columns(v, table) matches Some(c) && exists|i: int| 0 <= i < cells.len() && column_type(c, #[trigger] cells[i].0) is None)
            ==> insert_error(v, table, cells) is Some,
{
    if let Some(c) = table_columns(v, table) {
        lemma_cells_error_none(c, cells);
        if exists|i: int| 0 <= i < cells.len() && column_type(c, #[trigger] cells[i].0) is None {
            let i = choose|i: int| 0 <= i < cells.len() && column_type(c, #[trigger] cells[i].0) is None;
            assert(cell_error(c, cells[i]) is Some);
        }
    }
}

} // verus!
