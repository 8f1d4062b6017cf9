//! Schema manager: online, non-destructive schema evolution.
//!
//! Every table written by the daemon has a fixed timestamp column and a
//! device-name column, followed by one nullable numeric column per distinct
//! metric column ever declared for that table.  Ensuring a table adds the
//! declared columns that are still missing, one at a time, in declared
//! order, and touches nothing else: columns are never removed or reordered,
//! so existing rows and data survive every call.  The statements themselves
//! are composed here; executing them against the store is the caller's
//! part.

use vstd::prelude::*;

verus! {

/// The in-memory model of one table's metric columns, in the order they
/// were added to the table.
pub struct TableSchema {
    pub columns: Vec<String>,
}

/// The column names of `cols`, as character sequences.
pub open spec fn spec_col_names(cols: Seq<String>) -> Seq<Seq<char>> {
    cols.map_values(|c: String| c@)
}

/// The columns a table holds after ensuring `declared` against `existing`:
/// the existing columns unchanged and in place, then every declared column
/// not already present, in declared order, first occurrence only.
pub open spec fn spec_ensure_columns(existing: Seq<Seq<char>>, declared: Seq<Seq<char>>) -> Seq<
    Seq<char>,
>
    decreases declared.len(),
{
    if declared.len() == 0 {
        existing
    } else {
        let grown = if existing.contains(declared[0]) {
            existing
        } else {
            existing.push(declared[0])
        };
        spec_ensure_columns(grown, declared.drop_first())
    }
}

impl TableSchema {
    /// The model of the schema: its metric column names in order.
    pub open spec fn spec_cols(&self) -> Seq<Seq<char>> {
        spec_col_names(self.columns@)
    }

    /// A schema with no metric columns yet.
    pub fn new() -> (s: TableSchema)
        ensures
            s.spec_cols() == Seq::<Seq<char>>::empty(),
    {
        let s = TableSchema { columns: Vec::new() };
        proof {
            assert(s.spec_cols() =~= Seq::<Seq<char>>::empty());
        }
        s
    }

    /// Adds every declared column that the schema does not hold yet, in
    /// declared order, and returns exactly the columns that were added.
    /// Pre-existing columns are untouched: the old columns stay a prefix.
    pub fn ensure(&mut self, declared: &Vec<String>) -> (added: Vec<String>)
        ensures
            final(self).spec_cols() == spec_ensure_columns(
                old(self).spec_cols(),
                spec_col_names(declared@),
            ),
            final(self).spec_cols() == old(self).spec_cols() + spec_col_names(added@),
    {
        let ghost all = spec_col_names(declared@);
        let ghost orig = self.spec_cols();
        let mut added: Vec<String> = Vec::new();
        let n = declared.len();
        let mut i: usize = 0;
        proof {
            assert(all.skip(0) =~= all);
            assert(orig + spec_col_names(added@) =~= orig);
        }
        while i < n
            invariant
                i <= n,
                n == declared@.len(),
                all == spec_col_names(declared@),
                spec_ensure_columns(self.spec_cols(), all.skip(i as int)) == spec_ensure_columns(
                    orig,
                    all,
                ),
                self.spec_cols() == orig + spec_col_names(added@),
            decreases n - i,
        {
            proof {
                assert(all.skip(i as int)[0] == all[i as int]);
                assert(all.skip(i as int).drop_first() =~= all.skip(i + 1));
            }
            if !contains_column(&self.columns, &declared[i]) {
                let ghost before = self.spec_cols();
                self.columns.push(declared[i].clone());
                added.push(declared[i].clone());
                proof {
                    assert(self.spec_cols() =~= before.push(all[i as int]));
                    assert(spec_col_names(added@).last() == all[i as int]);
                    assert(self.spec_cols() =~= orig + spec_col_names(added@));
                }
            }
            i = i + 1;
        }
        proof {
            assert(all.skip(n as int) =~= Seq::<Seq<char>>::empty());
        }
        added
    }
}

proof fn lemma_push_contains(s: Seq<Seq<char>>, x: Seq<char>, c: Seq<char>)
    ensures
        s.push(x).contains(c) <==> (s.contains(c) || c == x),
{
    if s.push(x).contains(c) {
        let k = choose|k: int| 0 <= k < s.push(x).len() && s.push(x)[k] == c;
        if k < s.len() {
            assert(s[k] == c);
        }
    }
    if s.contains(c) {
        let k = choose|k: int| 0 <= k < s.len() && s[k] == c;
        assert(s.push(x)[k] == c);
    }
    if c == x {
        assert(s.push(x)[s.len() as int] == c);
    }
}

/// Ensuring never disturbs what is already there: the existing columns
/// stay a prefix of the result, in their old places.
pub proof fn lemma_ensure_prefix(existing: Seq<Seq<char>>, declared: Seq<Seq<char>>)
    ensures
        existing.is_prefix_of(spec_ensure_columns(existing, declared)),
    decreases declared.len(),
{
    if declared.len() != 0 {
        let grown = if existing.contains(declared[0]) {
            existing
        } else {
            existing.push(declared[0])
        };
        lemma_ensure_prefix(grown, declared.drop_first());
        assert(existing.is_prefix_of(grown));
    }
}

/// The result of ensuring holds exactly the union of the existing and the
/// declared column names.
pub proof fn lemma_ensure_contains(existing: Seq<Seq<char>>, declared: Seq<Seq<char>>)
    ensures
        forall|c: Seq<char>|
            spec_ensure_columns(existing, declared).contains(c) <==> (existing.contains(c)
                || declared.contains(c)),
    decreases declared.len(),
{
    if declared.len() != 0 {
        let grown = if existing.contains(declared[0]) {
            existing
        } else {
            existing.push(declared[0])
        };
        lemma_ensure_contains(grown, declared.drop_first());
        assert forall|c: Seq<char>|
            spec_ensure_columns(existing, declared).contains(c) <==> (existing.contains(c)
                || declared.contains(c)) by {
            lemma_push_contains(existing, declared[0], c);
            if declared.contains(c) && c != declared[0] {
                let k = choose|k: int| 0 <= k < declared.len() && declared[k] == c;
                assert(declared.drop_first()[k - 1] == c);
            }
            if declared.drop_first().contains(c) {
                let k = choose|k: int|
                    0 <= k < declared.drop_first().len() && declared.drop_first()[k] == c;
                assert(declared[k + 1] == c);
            }
        }
    } else {
        assert forall|c: Seq<char>| declared.contains(c) implies existing.contains(c) by {
            assert(declared.len() == 0);
        }
    }
}

/// Ensuring columns that are all present already changes nothing.
pub proof fn lemma_ensure_noop(existing: Seq<Seq<char>>, declared: Seq<Seq<char>>)
    requires
        forall|i: int| 0 <= i < declared.len() ==> existing.contains(#[trigger] declared[i]),
    ensures
        spec_ensure_columns(existing, declared) == existing,
    decreases declared.len(),
{
    if declared.len() != 0 {
        assert(existing.contains(declared[0]));
        assert forall|i: int| 0 <= i < declared.drop_first().len() implies existing.contains(
            #[trigger] declared.drop_first()[i],
        ) by {
            assert(declared.drop_first()[i] == declared[i + 1]);
        }
        lemma_ensure_noop(existing, declared.drop_first());
    }
}

/// Ensuring a table is idempotent: a second call with the same declared
/// columns leaves the schema exactly as the first call left it.
pub proof fn lemma_ensure_idempotent(existing: Seq<Seq<char>>, declared: Seq<Seq<char>>)
    ensures
        spec_ensure_columns(spec_ensure_columns(existing, declared), declared)
            == spec_ensure_columns(existing, declared),
{
    let once = spec_ensure_columns(existing, declared);
    lemma_ensure_contains(existing, declared);
    assert forall|i: int| 0 <= i < declared.len() implies once.contains(
        #[trigger] declared[i],
    ) by {
        assert(declared.contains(declared[i]));
    }
    lemma_ensure_noop(once, declared);
}

/// Every column the ensuring appended was missing before and was declared:
/// nothing else is ever added.
pub proof fn lemma_ensure_added(existing: Seq<Seq<char>>, declared: Seq<Seq<char>>)
    ensures
        forall|i: int|
            existing.len() <= i < spec_ensure_columns(existing, declared).len()
                ==> !existing.contains(#[trigger] spec_ensure_columns(existing, declared)[i])
                && declared.contains(spec_ensure_columns(existing, declared)[i]),
    decreases declared.len(),
{
    let result = spec_ensure_columns(existing, declared);
    if declared.len() != 0 {
        let grown = if existing.contains(declared[0]) {
            existing
        } else {
            existing.push(declared[0])
        };
        lemma_ensure_added(grown, declared.drop_first());
        lemma_ensure_prefix(grown, declared.drop_first());
        assert forall|i: int|
            existing.len() <= i < result.len() implies !existing.contains(#[trigger] result[i])
            && declared.contains(result[i]) by {
            lemma_push_contains(existing, declared[0], result[i]);
            if i >= grown.len() {
                assert(declared.drop_first().contains(result[i]));
                let k = choose|k: int|
                    0 <= k < declared.drop_first().len() && declared.drop_first()[k] == result[i];
                assert(declared[k + 1] == result[i]);
            } else {
                assert(result[i] == grown[i]);
                assert(result[i] == declared[0]);
                assert(declared.contains(declared[0]));
            }
        }
    }
}

/// Ensuring is monotonic: after a first call declared `declared`, a second
/// call with a superset of it keeps the first result as an untouched
/// prefix, appends only columns of the superset that were still missing,
/// and ends with exactly the union of the two column sets.
pub proof fn lemma_ensure_monotonic(
    existing: Seq<Seq<char>>,
    declared: Seq<Seq<char>>,
    wider: Seq<Seq<char>>,
)
    requires
        forall|c: Seq<char>| declared.contains(c) ==> wider.contains(c),
    ensures
        spec_ensure_columns(existing, declared).is_prefix_of(
            spec_ensure_columns(spec_ensure_columns(existing, declared), wider),
        ),
        forall|i: int|
            spec_ensure_columns(existing, declared).len() <= i < spec_ensure_columns(
                spec_ensure_columns(existing, declared),
                wider,
            ).len() ==> !spec_ensure_columns(existing, declared).contains(
                #[trigger] spec_ensure_columns(spec_ensure_columns(existing, declared), wider)[i],
            ) && wider.contains(
                spec_ensure_columns(spec_ensure_columns(existing, declared), wider)[i],
            ),
        forall|c: Seq<char>|
            spec_ensure_columns(spec_ensure_columns(existing, declared), wider).contains(c) <==> (
            spec_ensure_columns(existing, declared).contains(c) || wider.contains(c)),
{
    let first = spec_ensure_columns(existing, declared);
    lemma_ensure_prefix(first, wider);
    lemma_ensure_added(first, wider);
    lemma_ensure_contains(first, wider);
}

/// Whether `cols` holds a column of name `name`.
pub fn contains_column(cols: &Vec<String>, name: &String) -> (r: bool)
    ensures
        r == spec_col_names(cols@).contains(name@),
{
    let n = cols.len();
    let mut i: usize = 0;
    while i < n
        invariant
            i <= n,
            n == cols@.len(),
            forall|j: int| 0 <= j < i ==> spec_col_names(cols@)[j] != name@,
        decreases n - i,
    {
        if cols[i] == *name {
            proof {
                assert(spec_col_names(cols@)[i as int] == name@);
            }
            return true;
        }
        i = i + 1;
    }
    proof {
        assert(!spec_col_names(cols@).contains(name@)) by {
            if spec_col_names(cols@).contains(name@) {
                let k = choose|k: int|
                    0 <= k < spec_col_names(cols@).len() && spec_col_names(cols@)[k] == name@;
                assert(spec_col_names(cols@)[k] != name@);
            }
        }
    }
    false
}

/// The column definitions that follow the fixed timestamp and device
/// columns in a CREATE TABLE statement: `, <name> REAL` for each column.
pub open spec fn spec_column_defs(cols: Seq<Seq<char>>) -> Seq<char>
    decreases cols.len(),
{
    if cols.len() == 0 {
        Seq::<char>::empty()
    } else {
        spec_column_defs(cols.drop_last()) + ", "@ + cols.last() + " REAL"@
    }
}

/// The statement that creates `table` if it is absent, with the timestamp
/// and device columns and one numeric column per declared name.
pub open spec fn spec_create_table_sql(table: Seq<char>, cols: Seq<Seq<char>>) -> Seq<char> {
    "CREATE TABLE IF NOT EXISTS "@ + table + " (timestamp TEXT, device TEXT"@ + spec_column_defs(
        cols,
    ) + ");"@
}

/// The statement that appends one nullable numeric column to `table`.
pub open spec fn spec_add_column_sql(table: Seq<char>, col: Seq<char>) -> Seq<char> {
    "ALTER TABLE "@ + table + " ADD COLUMN "@ + col + " REAL;"@
}

/// Composes the CREATE TABLE IF NOT EXISTS statement for `table` with the
/// fixed timestamp and device columns and the given metric columns.
pub fn create_table_sql(table: &String, columns: &Vec<String>) -> (sql: String)
    ensures
        sql@ == spec_create_table_sql(table@, spec_col_names(columns@)),
{
    let ghost cols = spec_col_names(columns@);
    let mut sql = String::from_str("CREATE TABLE IF NOT EXISTS ");
    sql.append(table.as_str());
    sql.append(" (timestamp TEXT, device TEXT");
    let ghost head = "CREATE TABLE IF NOT EXISTS "@ + table@ + " (timestamp TEXT, device TEXT"@;
    proof {
        assert(sql@ =~= head + spec_column_defs(cols.take(0)));
    }
    let n = columns.len();
    let mut i: usize = 0;
    while i < n
        invariant
            i <= n,
            n == columns@.len(),
            cols == spec_col_names(columns@),
            sql@ == head + spec_column_defs(cols.take(i as int)),
        decreases n - i,
    {
        sql.append(", ");
        sql.append(columns[i].as_str());
        sql.append(" REAL");
        proof {
            assert(cols.take(i + 1).drop_last() =~= cols.take(i as int));
            assert(cols.take(i + 1).last() == cols[i as int]);
            assert(sql@ =~= head + spec_column_defs(cols.take(i + 1)));
        }
        i = i + 1;
    }
    sql.append(");");
    proof {
        assert(cols.take(n as int) =~= cols);
        assert(sql@ =~= spec_create_table_sql(table@, cols));
    }
    sql
}

/// Composes the ALTER TABLE statement that adds one missing column.
pub fn add_column_sql(table: &String, column: &String) -> (sql: String)
    ensures
        sql@ == spec_add_column_sql(table@, column@),
{
    let mut sql = String::from_str("ALTER TABLE ");
    sql.append(table.as_str());
    sql.append(" ADD COLUMN ");
    sql.append(column.as_str());
    sql.append(" REAL;");
    proof {
        assert(sql@ =~= spec_add_column_sql(table@, column@));
    }
    sql
}

/// Composes one ALTER TABLE statement per added column, in order.
pub fn alter_table_sqls(table: &String, added: &Vec<String>) -> (stmts: Vec<String>)
    ensures
        stmts@.len() == added@.len(),
        forall|i: int|
            0 <= i < added@.len() ==> (#[trigger] stmts@[i])@ == spec_add_column_sql(
                table@,
                added@[i]@,
            ),
{
    let mut stmts: Vec<String> = Vec::new();
    let n = added.len();
    let mut i: usize = 0;
    while i < n
        invariant
            i <= n,
            n == added@.len(),
            stmts@.len() == i,
            forall|j: int|
                0 <= j < i ==> (#[trigger] stmts@[j])@ == spec_add_column_sql(table@, added@[j]@),
        decreases n - i,
    {
        stmts.push(add_column_sql(table, &added[i]));
        i = i + 1;
    }
    stmts
}

} // verus!
