//! Built-in documentation of SAP ASE keywords, data types, functions and
//! system variables, used by hover, signature help and completion.

use vstd::prelude::*;

verus! {

/// Category of a documentation entry.
#[derive(Debug, Clone, Copy, PartialEq, Eq, Structural)]
pub enum DocCategory {
    /// SQL keyword.
    Keyword,
    /// Data type.
    DataType,
    /// Built-in function.
    Function,
    /// System variable.
    SystemVariable,
}

/// One documentation entry.
#[derive(Debug, Clone, PartialEq)]
pub struct DocEntry {
    /// Name, upper case.
    pub name: &'static str,
    /// Description.
    pub description: &'static str,
    /// Syntax example.
    pub syntax: &'static str,
    /// Parameter names.
    pub params: Vec<&'static str>,
    /// Category.
    pub category: DocCategory,
}

/// The text of a documentation entry.
pub struct DocEntryView {
    /// Name, upper case.
    pub name: Seq<char>,
    /// Description.
    pub description: Seq<char>,
    /// Syntax example.
    pub syntax: Seq<char>,
    /// Parameter names.
    pub params: Seq<&'static str>,
    /// Category.
    pub category: DocCategory,
}

impl View for DocEntry {
    type V = DocEntryView;

    open spec fn view(&self) -> DocEntryView {
        DocEntryView {
            name: self.name@,
            description: self.description@,
            syntax: self.syntax@,
            params: self.params@,
            category: self.category,
        }
    }
}

/// The views of a sequence of entries.
pub open spec fn entries_view(s: Seq<DocEntry>) -> Seq<DocEntryView> {
    s.map_values(|e: DocEntry| e@)
}

/// An entry built from its texts.
pub open spec fn entry_view(
    name: &'static str,
    description: &'static str,
    syntax: &'static str,
    params: Seq<&'static str>,
    category: DocCategory,
) -> DocEntryView {
    DocEntryView { name: name@, description: description@, syntax: syntax@, params, category }
}

fn entry(
    name: &'static str,
    description: &'static str,
    syntax: &'static str,
    params: Vec<&'static str>,
    category: DocCategory,
) -> (e: DocEntry)
    ensures
        e@ == entry_view(name, description, syntax, params@, category),
{
    DocEntry { name, description, syntax, params, category }
}

fn params0() -> (v: Vec<&'static str>)
    ensures
        v@ == Seq::<&'static str>::empty(),
{
    let mut v: Vec<&'static str> = Vec::new();
    v
}

fn params1(p0: &'static str) -> (v: Vec<&'static str>)
    ensures
        v@ == seq![p0],
{
    let mut v: Vec<&'static str> = Vec::new();
    v.push(p0);
    v
}

fn params2(p0: &'static str, p1: &'static str) -> (v: Vec<&'static str>)
    ensures
        v@ == seq![p0, p1],
{
    let mut v: Vec<&'static str> = Vec::new();
    v.push(p0);
    v.push(p1);
    v
}

fn params3(p0: &'static str, p1: &'static str, p2: &'static str) -> (v: Vec<&'static str>)
    ensures
        v@ == seq![p0, p1, p2],
{
    let mut v: Vec<&'static str> = Vec::new();
    v.push(p0);
    v.push(p1);
    v.push(p2);
    v
}

fn params4(p0: &'static str, p1: &'static str, p2: &'static str, p3: &'static str) -> (v: Vec<&'static str>)
    ensures
        v@ == seq![p0, p1, p2, p3],
{
    let mut v: Vec<&'static str> = Vec::new();
    v.push(p0);
    v.push(p1);
    v.push(p2);
    v.push(p3);
    v
}

/// Index of the last entry of `t` named `name`: a name index keeps the
/// last of several entries with one name.
pub open spec fn last_named(t: Seq<DocEntryView>, name: Seq<char>) -> Option<int>
    decreases t.len(),
{
    if t.len() == 0 {
        None
    } else if t.last().name == name {
        Some(t.len() - 1)
    } else {
        last_named(t.drop_last(), name)
    }
}

/// The entry of `t` found under `name`.
pub open spec fn lookup_in(t: Seq<DocEntryView>, name: Seq<char>) -> Option<DocEntryView> {
    match last_named(t, name) {
        Some(i) => Some(t[i]),
        None => None,
    }
}

/// The function entry named `name`.
pub open spec fn spec_lookup_function(name: Seq<char>) -> Option<DocEntryView> {
    lookup_in(function_table(), name)
}

/// The entry named `name`: keywords, data types and system variables take
/// precedence over functions of the same name.
pub open spec fn spec_lookup(name: Seq<char>) -> Option<DocEntryView> {
    match lookup_in(keyword_table() + datatype_table() + system_variable_table(), name) {
        Some(e) => Some(e),
        None => spec_lookup_function(name),
    }
}

proof fn lemma_last_named(t: Seq<DocEntryView>, name: Seq<char>)
    ensures
        last_named(t, name) matches Some(i) ==> 0 <= i < t.len() && t[i].name == name
            && forall|k: int| i < k < t.len() ==> t[k].name != name,
        last_named(t, name) is None ==> forall|k: int| 0 <= k < t.len() ==> t[k].name != name,
    decreases t.len(),
{
    if t.len() > 0 {
        let p = t.drop_last();
        lemma_last_named(p, name);
        assert(forall|k: int| 0 <= k < p.len() ==> p[k] == t[k]);
    }
}

/// Index of the last entry of `entries` named `name`.
fn find_last(entries: &Vec<DocEntry>, name: &str) -> (r: Option<usize>)
    ensures
        match r {
            Some(i) => last_named(entries_view(entries@), name@) == Some(i as int),
            None => last_named(entries_view(entries@), name@) is None,
        },
{
    let ghost t = entries_view(entries@);
    let mut i: usize = entries.len();
    while i > 0
        invariant
            i <= entries@.len(),
            t == entries_view(entries@),
            forall|k: int| i <= k < t.len() ==> t[k].name != name@,
        decreases i,
    {
        if crate::text::str_eq(entries[i - 1].name, name) {
            let ghost j = (i - 1) as int;
            proof {
                lemma_last_named(t, name@);
                assert(t[j] == entries@[j]@);
                if let Some(w) = last_named(t, name@) {
                    assert(w == j);
                }
            }
            return Some(i - 1);
        }
        i = i - 1;
    }
    proof {
        lemma_last_named(t, name@);
    }
    None
}

/// The entry of `entries` found under `name`.
fn take_named(entries: Vec<DocEntry>, name: &str) -> (r: Option<DocEntry>)
    ensures
        match r {
            Some(e) => lookup_in(entries_view(entries@), name@) == Some(e@),
            None => lookup_in(entries_view(entries@), name@) is None,
        },
{
    match find_last(&entries, name) {
        Some(i) => {
            let ghost t = entries_view(entries@);
            proof {
                lemma_last_named(t, name@);
            }
            let mut v = entries;
            let e = v.swap_remove(i);
            assert(e@ == t[i as int]);
            Some(e)
        },
        None => None,
    }
}

/// Look up a function entry by its upper-case name.
pub fn lookup_function(name: &str) -> (r: Option<DocEntry>)
    ensures
        match r {
            Some(e) => spec_lookup_function(name@) == Some(e@),
            None => spec_lookup_function(name@) is None,
        },
{
    take_named(functions(), name)
}

/// Look up an entry by its upper-case name; keywords, data types and
/// system variables take precedence over functions of the same name.
pub fn lookup(name: &str) -> (r: Option<DocEntry>)
    ensures
        match r {
            Some(e) => spec_lookup(name@) == Some(e@),
            None => spec_lookup(name@) is None,
        },
{
    let mut others = keywords();
    let mut more = datatypes();
    others.append(&mut more);
    let mut vars = system_variables();
    others.append(&mut vars);
    proof {
        assert(entries_view(others@) =~= keyword_table() + datatype_table() + system_variable_table());
    }
    match take_named(others, name) {
        Some(e) => Some(e),
        None => lookup_function(name),
    }
}

/// The keyword entries, in table order.
pub open spec fn keyword_table() -> Seq<DocEntryView> {
    seq![
        entry_view("SELECT", "Retrieves data from one or more tables", "SELECT [DISTINCT] col1, col2 FROM table WHERE condition", seq![], DocCategory::Keyword),
        entry_view("FROM", "Specifies the source tables for a query", "FROM table1 [AS alias] [JOIN table2 ON ...]", seq![], DocCategory::Keyword),
        entry_view("WHERE", "Filters rows based on a condition", "WHERE column = value AND column2 > value2", seq![], DocCategory::Keyword),
        entry_view("INSERT", "Inserts rows into a table", "INSERT INTO table (col1, col2) VALUES (val1, val2)", seq![], DocCategory::Keyword),
        entry_view("INTO", "Target specification for INSERT/SELECT INTO", "INSERT INTO table ...", seq![], DocCategory::Keyword),
        entry_view("UPDATE", "Modifies existing rows in a table", "UPDATE table SET col1 = val1 WHERE condition", seq![], DocCategory::Keyword),
        entry_view("DELETE", "Removes rows from a table", "DELETE FROM table WHERE condition", seq![], DocCategory::Keyword),
        entry_view("CREATE", "Creates a new database object", "CREATE TABLE | PROCEDURE | VIEW | INDEX ...", seq![], DocCategory::Keyword),
        entry_view("ALTER", "Modifies an existing database object", "ALTER TABLE ... | ALTER PROCEDURE ...", seq![], DocCategory::Keyword),
        entry_view("DROP", "Removes a database object", "DROP TABLE | PROCEDURE | VIEW | INDEX ...", seq![], DocCategory::Keyword),
        entry_view("TABLE", "Defines or references a table structure", "CREATE TABLE name (col1 TYPE, ...)", seq![], DocCategory::Keyword),
        entry_view("INDEX", "Creates an index on table columns", "CREATE [UNIQUE] [CLUSTERED] INDEX name ON table(col)", seq![], DocCategory::Keyword),
        entry_view("VIEW", "Creates a virtual table based on a query", "CREATE VIEW name AS SELECT ...", seq![], DocCategory::Keyword),
        entry_view("PROCEDURE", "Creates a stored procedure", "CREATE PROCEDURE name @param TYPE AS BEGIN ... END", seq![], DocCategory::Keyword),
        entry_view("IF", "Conditional execution", "IF condition BEGIN ... END ELSE BEGIN ... END", seq![], DocCategory::Keyword),
        entry_view("ELSE", "Alternative branch for IF", "IF ... ELSE ...", seq![], DocCategory::Keyword),
        entry_view("BEGIN", "Starts a statement block", "BEGIN ... END", seq![], DocCategory::Keyword),
        entry_view("END", "Ends a statement block", "BEGIN ... END", seq![], DocCategory::Keyword),
        entry_view("WHILE", "Loop construct", "WHILE condition BEGIN ... END", seq![], DocCategory::Keyword),
        entry_view("RETURN", "Exits a procedure or batch", "RETURN [value]", seq![], DocCategory::Keyword),
        entry_view("DECLARE", "Declares a local variable", "DECLARE @var TYPE [, @var2 TYPE]", seq![], DocCategory::Keyword),
        entry_view("SET", "Assigns a value to a variable", "SET @var = expression", seq![], DocCategory::Keyword),
        entry_view("JOIN", "Combines rows from two tables", "[INNER|LEFT|RIGHT|FULL] JOIN table ON condition", seq![], DocCategory::Keyword),
        entry_view("INNER", "Specifies an inner join", "INNER JOIN table ON condition", seq![], DocCategory::Keyword),
        entry_view("LEFT", "Specifies a left outer join", "LEFT JOIN table ON condition", seq![], DocCategory::Keyword),
        entry_view("RIGHT", "Specifies a right outer join", "RIGHT JOIN table ON condition", seq![], DocCategory::Keyword),
        entry_view("ON", "Specifies join condition", "... JOIN table ON condition", seq![], DocCategory::Keyword),
        entry_view("AND", "Logical AND in conditions", "condition1 AND condition2", seq![], DocCategory::Keyword),
        entry_view("OR", "Logical OR in conditions", "condition1 OR condition2", seq![], DocCategory::Keyword),
        entry_view("NOT", "Logical NOT", "NOT condition", seq![], DocCategory::Keyword),
        entry_view("IN", "Checks if value is in a set", "column IN (val1, val2, ...)", seq![], DocCategory::Keyword),
        entry_view("EXISTS", "Checks if subquery returns rows", "EXISTS (SELECT ...)", seq![], DocCategory::Keyword),
        entry_view("BETWEEN", "Range check", "column BETWEEN val1 AND val2", seq![], DocCategory::Keyword),
        entry_view("LIKE", "Pattern matching", "column LIKE 'pattern%'", seq![], DocCategory::Keyword),
        entry_view("IS", "NULL check", "column IS [NOT] NULL", seq![], DocCategory::Keyword),
        entry_view("NULL", "Represents missing or unknown data", "column IS NULL | column = NULL", seq![], DocCategory::Keyword),
        entry_view("ORDER", "Sorts query results", "ORDER BY col1 [ASC|DESC], col2", seq![], DocCategory::Keyword),
        entry_view("BY", "Used with ORDER, GROUP", "ORDER BY | GROUP BY", seq![], DocCategory::Keyword),
        entry_view("GROUP", "Groups rows for aggregation", "GROUP BY col1, col2", seq![], DocCategory::Keyword),
        entry_view("HAVING", "Filters grouped results", "GROUP BY ... HAVING condition", seq![], DocCategory::Keyword),
        entry_view("UNION", "Combines result sets", "SELECT ... UNION [ALL] SELECT ...", seq![], DocCategory::Keyword),
        entry_view("DISTINCT", "Removes duplicate rows", "SELECT DISTINCT col1, col2 ...", seq![], DocCategory::Keyword),
        entry_view("CASE", "Conditional expression", "CASE WHEN cond THEN val ELSE val END", seq![], DocCategory::Keyword),
        entry_view("WHEN", "Condition branch in CASE", "CASE WHEN condition THEN result", seq![], DocCategory::Keyword),
        entry_view("THEN", "Result in CASE WHEN", "WHEN condition THEN result", seq![], DocCategory::Keyword),
        entry_view("AS", "Creates an alias", "column AS alias | table AS alias", seq![], DocCategory::Keyword),
        entry_view("PRIMARY", "Primary key constraint", "PRIMARY KEY (col1, col2)", seq![], DocCategory::Keyword),
        entry_view("FOREIGN", "Foreign key constraint", "FOREIGN KEY (col) REFERENCES table(col)", seq![], DocCategory::Keyword),
        entry_view("KEY", "Constraint keyword", "PRIMARY KEY | FOREIGN KEY", seq![], DocCategory::Keyword),
        entry_view("REFERENCES", "Referenced table/column", "FOREIGN KEY (col) REFERENCES table(col)", seq![], DocCategory::Keyword),
        entry_view("UNIQUE", "Unique constraint", "UNIQUE (col1, col2)", seq![], DocCategory::Keyword),
        entry_view("CHECK", "Check constraint", "CHECK (condition)", seq![], DocCategory::Keyword),
        entry_view("DEFAULT", "Default value for column", "col TYPE DEFAULT value", seq![], DocCategory::Keyword),
        entry_view("IDENTITY", "Auto-increment column", "col INT IDENTITY(1,1)", seq![], DocCategory::Keyword),
        entry_view("CONSTRAINT", "Named constraint", "CONSTRAINT name PRIMARY KEY (col)", seq![], DocCategory::Keyword),
        entry_view("TRY", "Starts error handling block", "BEGIN TRY ... END TRY BEGIN CATCH ... END CATCH", seq![], DocCategory::Keyword),
        entry_view("CATCH", "Catches errors in TRY block", "BEGIN TRY ... BEGIN CATCH ... END CATCH", seq![], DocCategory::Keyword),
        entry_view("THROW", "Raises an error", "THROW error_number, 'message', state", seq![], DocCategory::Keyword),
        entry_view("COMMIT", "Commits a transaction", "COMMIT [TRAN[SACTION] [name]]", seq![], DocCategory::Keyword),
        entry_view("ROLLBACK", "Rolls back a transaction", "ROLLBACK [TRAN[SACTION] [name]]", seq![], DocCategory::Keyword),
        entry_view("TRANSACTION", "Transaction management", "BEGIN TRANSACTION | COMMIT | ROLLBACK", seq![], DocCategory::Keyword),
        entry_view("GRANT", "Grants permissions", "GRANT SELECT ON table TO user", seq![], DocCategory::Keyword),
        entry_view("REVOKE", "Removes permissions", "REVOKE SELECT ON table FROM user", seq![], DocCategory::Keyword),
        entry_view("EXEC", "Executes a stored procedure", "EXEC [@ret =] procedure @param = value", seq![], DocCategory::Keyword),
        entry_view("EXECUTE", "Executes a stored procedure", "EXECUTE [@ret =] procedure @param = value", seq![], DocCategory::Keyword),
        entry_view("PRINT", "Outputs a message", "PRINT 'message'", seq![], DocCategory::Keyword),
        entry_view("GO", "Batch separator (ASE/Sybase)", "GO [count]", seq![], DocCategory::Keyword),
        entry_view("TOP", "Limits rows returned", "SELECT TOP n * FROM table", seq![], DocCategory::Keyword),
    ]
}

/// The keyword entries, in table order.
pub fn keywords() -> (r: Vec<DocEntry>)
    ensures
        entries_view(r@) == keyword_table(),
{
    let mut v: Vec<DocEntry> = Vec::new();
    v.push(entry("SELECT", "Retrieves data from one or more tables", "SELECT [DISTINCT] col1, col2 FROM table WHERE condition", params0(), DocCategory::Keyword));
    v.push(entry("FROM", "Specifies the source tables for a query", "FROM table1 [AS alias] [JOIN table2 ON ...]", params0(), DocCategory::Keyword));
    v.push(entry("WHERE", "Filters rows based on a condition", "WHERE column = value AND column2 > value2", params0(), DocCategory::Keyword));
    v.push(entry("INSERT", "Inserts rows into a table", "INSERT INTO table (col1, col2) VALUES (val1, val2)", params0(), DocCategory::Keyword));
    v.push(entry("INTO", "Target specification for INSERT/SELECT INTO", "INSERT INTO table ...", params0(), DocCategory::Keyword));
    v.push(entry("UPDATE", "Modifies existing rows in a table", "UPDATE table SET col1 = val1 WHERE condition", params0(), DocCategory::Keyword));
    v.push(entry("DELETE", "Removes rows from a table", "DELETE FROM table WHERE condition", params0(), DocCategory::Keyword));
    v.push(entry("CREATE", "Creates a new database object", "CREATE TABLE | PROCEDURE | VIEW | INDEX ...", params0(), DocCategory::Keyword));
    v.push(entry("ALTER", "Modifies an existing database object", "ALTER TABLE ... | ALTER PROCEDURE ...", params0(), DocCategory::Keyword));
    v.push(entry("DROP", "Removes a database object", "DROP TABLE | PROCEDURE | VIEW | INDEX ...", params0(), DocCategory::Keyword));
    v.push(entry("TABLE", "Defines or references a table structure", "CREATE TABLE name (col1 TYPE, ...)", params0(), DocCategory::Keyword));
    v.push(entry("INDEX", "Creates an index on table columns", "CREATE [UNIQUE] [CLUSTERED] INDEX name ON table(col)", params0(), DocCategory::Keyword));
    v.push(entry("VIEW", "Creates a virtual table based on a query", "CREATE VIEW name AS SELECT ...", params0(), DocCategory::Keyword));
    v.push(entry("PROCEDURE", "Creates a stored procedure", "CREATE PROCEDURE name @param TYPE AS BEGIN ... END", params0(), DocCategory::Keyword));
    v.push(entry("IF", "Conditional execution", "IF condition BEGIN ... END ELSE BEGIN ... END", params0(), DocCategory::Keyword));
    v.push(entry("ELSE", "Alternative branch for IF", "IF ... ELSE ...", params0(), DocCategory::Keyword));
    v.push(entry("BEGIN", "Starts a statement block", "BEGIN ... END", params0(), DocCategory::Keyword));
    v.push(entry("END", "Ends a statement block", "BEGIN ... END", params0(), DocCategory::Keyword));
    v.push(entry("WHILE", "Loop construct", "WHILE condition BEGIN ... END", params0(), DocCategory::Keyword));
    v.push(entry("RETURN", "Exits a procedure or batch", "RETURN [value]", params0(), DocCategory::Keyword));
    v.push(entry("DECLARE", "Declares a local variable", "DECLARE @var TYPE [, @var2 TYPE]", params0(), DocCategory::Keyword));
    v.push(entry("SET", "Assigns a value to a variable", "SET @var = expression", params0(), DocCategory::Keyword));
    v.push(entry("JOIN", "Combines rows from two tables", "[INNER|LEFT|RIGHT|FULL] JOIN table ON condition", params0(), DocCategory::Keyword));
    v.push(entry("INNER", "Specifies an inner join", "INNER JOIN table ON condition", params0(), DocCategory::Keyword));
    v.push(entry("LEFT", "Specifies a left outer join", "LEFT JOIN table ON condition", params0(), DocCategory::Keyword));
    v.push(entry("RIGHT", "Specifies a right outer join", "RIGHT JOIN table ON condition", params0(), DocCategory::Keyword));
    v.push(entry("ON", "Specifies join condition", "... JOIN table ON condition", params0(), DocCategory::Keyword));
    v.push(entry("AND", "Logical AND in conditions", "condition1 AND condition2", params0(), DocCategory::Keyword));
    v.push(entry("OR", "Logical OR in conditions", "condition1 OR condition2", params0(), DocCategory::Keyword));
    v.push(entry("NOT", "Logical NOT", "NOT condition", params0(), DocCategory::Keyword));
    v.push(entry("IN", "Checks if value is in a set", "column IN (val1, val2, ...)", params0(), DocCategory::Keyword));
    v.push(entry("EXISTS", "Checks if subquery returns rows", "EXISTS (SELECT ...)", params0(), DocCategory::Keyword));
    v.push(entry("BETWEEN", "Range check", "column BETWEEN val1 AND val2", params0(), DocCategory::Keyword));
    v.push(entry("LIKE", "Pattern matching", "column LIKE 'pattern%'", params0(), DocCategory::Keyword));
    v.push(entry("IS", "NULL check", "column IS [NOT] NULL", params0(), DocCategory::Keyword));
    v.push(entry("NULL", "Represents missing or unknown data", "column IS NULL | column = NULL", params0(), DocCategory::Keyword));
    v.push(entry("ORDER", "Sorts query results", "ORDER BY col1 [ASC|DESC], col2", params0(), DocCategory::Keyword));
    v.push(entry("BY", "Used with ORDER, GROUP", "ORDER BY | GROUP BY", params0(), DocCategory::Keyword));
    v.push(entry("GROUP", "Groups rows for aggregation", "GROUP BY col1, col2", params0(), DocCategory::Keyword));
    v.push(entry("HAVING", "Filters grouped results", "GROUP BY ... HAVING condition", params0(), DocCategory::Keyword));
    v.push(entry("UNION", "Combines result sets", "SELECT ... UNION [ALL] SELECT ...", params0(), DocCategory::Keyword));
    v.push(entry("DISTINCT", "Removes duplicate rows", "SELECT DISTINCT col1, col2 ...", params0(), DocCategory::Keyword));
    v.push(entry("CASE", "Conditional expression", "CASE WHEN cond THEN val ELSE val END", params0(), DocCategory::Keyword));
    v.push(entry("WHEN", "Condition branch in CASE", "CASE WHEN condition THEN result", params0(), DocCategory::Keyword));
    v.push(entry("THEN", "Result in CASE WHEN", "WHEN condition THEN result", params0(), DocCategory::Keyword));
    v.push(entry("AS", "Creates an alias", "column AS alias | table AS alias", params0(), DocCategory::Keyword));
    v.push(entry("PRIMARY", "Primary key constraint", "PRIMARY KEY (col1, col2)", params0(), DocCategory::Keyword));
    v.push(entry("FOREIGN", "Foreign key constraint", "FOREIGN KEY (col) REFERENCES table(col)", params0(), DocCategory::Keyword));
    v.push(entry("KEY", "Constraint keyword", "PRIMARY KEY | FOREIGN KEY", params0(), DocCategory::Keyword));
    v.push(entry("REFERENCES", "Referenced table/column", "FOREIGN KEY (col) REFERENCES table(col)", params0(), DocCategory::Keyword));
    v.push(entry("UNIQUE", "Unique constraint", "UNIQUE (col1, col2)", params0(), DocCategory::Keyword));
    v.push(entry("CHECK", "Check constraint", "CHECK (condition)", params0(), DocCategory::Keyword));
    v.push(entry("DEFAULT", "Default value for column", "col TYPE DEFAULT value", params0(), DocCategory::Keyword));
    v.push(entry("IDENTITY", "Auto-increment column", "col INT IDENTITY(1,1)", params0(), DocCategory::Keyword));
    v.push(entry("CONSTRAINT", "Named constraint", "CONSTRAINT name PRIMARY KEY (col)", params0(), DocCategory::Keyword));
    v.push(entry("TRY", "Starts error handling block", "BEGIN TRY ... END TRY BEGIN CATCH ... END CATCH", params0(), DocCategory::Keyword));
    v.push(entry("CATCH", "Catches errors in TRY block", "BEGIN TRY ... BEGIN CATCH ... END CATCH", params0(), DocCategory::Keyword));
    v.push(entry("THROW", "Raises an error", "THROW error_number, 'message', state", params0(), DocCategory::Keyword));
    v.push(entry("COMMIT", "Commits a transaction", "COMMIT [TRAN[SACTION] [name]]", params0(), DocCategory::Keyword));
    v.push(entry("ROLLBACK", "Rolls back a transaction", "ROLLBACK [TRAN[SACTION] [name]]", params0(), DocCategory::Keyword));
    v.push(entry("TRANSACTION", "Transaction management", "BEGIN TRANSACTION | COMMIT | ROLLBACK", params0(), DocCategory::Keyword));
    v.push(entry("GRANT", "Grants permissions", "GRANT SELECT ON table TO user", params0(), DocCategory::Keyword));
    v.push(entry("REVOKE", "Removes permissions", "REVOKE SELECT ON table FROM user", params0(), DocCategory::Keyword));
    v.push(entry("EXEC", "Executes a stored procedure", "EXEC [@ret =] procedure @param = value", params0(), DocCategory::Keyword));
    v.push(entry("EXECUTE", "Executes a stored procedure", "EXECUTE [@ret =] procedure @param = value", params0(), DocCategory::Keyword));
    v.push(entry("PRINT", "Outputs a message", "PRINT 'message'", params0(), DocCategory::Keyword));
    v.push(entry("GO", "Batch separator (ASE/Sybase)", "GO [count]", params0(), DocCategory::Keyword));
    v.push(entry("TOP", "Limits rows returned", "SELECT TOP n * FROM table", params0(), DocCategory::Keyword));
    assert(entries_view(v@) =~~= keyword_table());
    v
}

/// The datatype entries, in table order.
pub open spec fn datatype_table() -> Seq<DocEntryView> {
    seq![
        entry_view("INT", "Integer (-2^31 to 2^31-1, 4 bytes)", "INT", seq![], DocCategory::DataType),
        entry_view("INTEGER", "Integer (same as INT)", "INTEGER", seq![], DocCategory::DataType),
        entry_view("SMALLINT", "Small integer (-32768 to 32767, 2 bytes)", "SMALLINT", seq![], DocCategory::DataType),
        entry_view("TINYINT", "Tiny integer (0 to 255, 1 byte)", "TINYINT", seq![], DocCategory::DataType),
        entry_view("BIGINT", "Big integer (-2^63 to 2^63-1, 8 bytes)", "BIGINT", seq![], DocCategory::DataType),
        entry_view("REAL", "Floating point (4 bytes)", "REAL", seq![], DocCategory::DataType),
        entry_view("FLOAT", "Floating point (8 bytes)", "FLOAT[(n)]", seq![], DocCategory::DataType),
        entry_view("DOUBLE", "Double precision floating point (8 bytes)", "DOUBLE", seq![], DocCategory::DataType),
        entry_view("DECIMAL", "Exact numeric with precision and scale", "DECIMAL(p[, s])", seq![], DocCategory::DataType),
        entry_view("NUMERIC", "Exact numeric (same as DECIMAL)", "NUMERIC(p[, s])", seq![], DocCategory::DataType),
        entry_view("MONEY", "Monetary value (-922 trillion to 922 trillion, 8 bytes)", "MONEY", seq![], DocCategory::DataType),
        entry_view("SMALLMONEY", "Small monetary (-214748 to 214748, 4 bytes)", "SMALLMONEY", seq![], DocCategory::DataType),
        entry_view("CHAR", "Fixed-length character (up to 16384 chars)", "CHAR(n)", seq![], DocCategory::DataType),
        entry_view("VARCHAR", "Variable-length character (up to 16384 chars)", "VARCHAR(n)", seq![], DocCategory::DataType),
        entry_view("TEXT", "Variable-length text (up to 2GB)", "TEXT", seq![], DocCategory::DataType),
        entry_view("NCHAR", "Fixed-length Unicode (UTF-16)", "NCHAR(n)", seq![], DocCategory::DataType),
        entry_view("NVARCHAR", "Variable-length Unicode (UTF-16)", "NVARCHAR(n)", seq![], DocCategory::DataType),
        entry_view("UNICHAR", "Fixed-length Unicode (ASE specific, UTF-16)", "UNICHAR(n)", seq![], DocCategory::DataType),
        entry_view("UNIVARCHAR", "Variable-length Unicode (ASE specific, UTF-16)", "UNIVARCHAR(n)", seq![], DocCategory::DataType),
        entry_view("UNITEXT", "Variable-length Unicode text (ASE specific)", "UNITEXT", seq![], DocCategory::DataType),
        entry_view("BINARY", "Fixed-length binary data", "BINARY(n)", seq![], DocCategory::DataType),
        entry_view("VARBINARY", "Variable-length binary data", "VARBINARY(n)", seq![], DocCategory::DataType),
        entry_view("IMAGE", "Variable-length binary (up to 2GB)", "IMAGE", seq![], DocCategory::DataType),
        entry_view("DATE", "Date value (0001-01-01 to 9999-12-31)", "DATE", seq![], DocCategory::DataType),
        entry_view("TIME", "Time value (00:00:00 to 23:59:59)", "TIME", seq![], DocCategory::DataType),
        entry_view("DATETIME", "Date and time (1753-01-01 to 9999-12-31, 8 bytes)", "DATETIME", seq![], DocCategory::DataType),
        entry_view("SMALLDATETIME", "Small date and time (1900-01-01 to 2079-06-06, 4 bytes)", "SMALLDATETIME", seq![], DocCategory::DataType),
        entry_view("BIGDATETIME", "High-precision datetime (ASE 15.7+, 1/1000 sec)", "BIGDATETIME", seq![], DocCategory::DataType),
        entry_view("BIGTIME", "High-precision time (ASE 15.7+)", "BIGTIME", seq![], DocCategory::DataType),
        entry_view("TIMESTAMP", "Auto-updated binary (unique within database)", "TIMESTAMP", seq![], DocCategory::DataType),
        entry_view("BIT", "Boolean (0 or 1)", "BIT", seq![], DocCategory::DataType),
        entry_view("UNIQUEIDENTIFIER", "GUID/UUID (16 bytes)", "UNIQUEIDENTIFIER", seq![], DocCategory::DataType),
    ]
}

/// The datatype entries, in table order.
pub fn datatypes() -> (r: Vec<DocEntry>)
    ensures
        entries_view(r@) == datatype_table(),
{
    let mut v: Vec<DocEntry> = Vec::new();
    v.push(entry("INT", "Integer (-2^31 to 2^31-1, 4 bytes)", "INT", params0(), DocCategory::DataType));
    v.push(entry("INTEGER", "Integer (same as INT)", "INTEGER", params0(), DocCategory::DataType));
    v.push(entry("SMALLINT", "Small integer (-32768 to 32767, 2 bytes)", "SMALLINT", params0(), DocCategory::DataType));
    v.push(entry("TINYINT", "Tiny integer (0 to 255, 1 byte)", "TINYINT", params0(), DocCategory::DataType));
    v.push(entry("BIGINT", "Big integer (-2^63 to 2^63-1, 8 bytes)", "BIGINT", params0(), DocCategory::DataType));
    v.push(entry("REAL", "Floating point (4 bytes)", "REAL", params0(), DocCategory::DataType));
    v.push(entry("FLOAT", "Floating point (8 bytes)", "FLOAT[(n)]", params0(), DocCategory::DataType));
    v.push(entry("DOUBLE", "Double precision floating point (8 bytes)", "DOUBLE", params0(), DocCategory::DataType));
    v.push(entry("DECIMAL", "Exact numeric with precision and scale", "DECIMAL(p[, s])", params0(), DocCategory::DataType));
    v.push(entry("NUMERIC", "Exact numeric (same as DECIMAL)", "NUMERIC(p[, s])", params0(), DocCategory::DataType));
    v.push(entry("MONEY", "Monetary value (-922 trillion to 922 trillion, 8 bytes)", "MONEY", params0(), DocCategory::DataType));
    v.push(entry("SMALLMONEY", "Small monetary (-214748 to 214748, 4 bytes)", "SMALLMONEY", params0(), DocCategory::DataType));
    v.push(entry("CHAR", "Fixed-length character (up to 16384 chars)", "CHAR(n)", params0(), DocCategory::DataType));
    v.push(entry("VARCHAR", "Variable-length character (up to 16384 chars)", "VARCHAR(n)", params0(), DocCategory::DataType));
    v.push(entry("TEXT", "Variable-length text (up to 2GB)", "TEXT", params0(), DocCategory::DataType));
    v.push(entry("NCHAR", "Fixed-length Unicode (UTF-16)", "NCHAR(n)", params0(), DocCategory::DataType));
    v.push(entry("NVARCHAR", "Variable-length Unicode (UTF-16)", "NVARCHAR(n)", params0(), DocCategory::DataType));
    v.push(entry("UNICHAR", "Fixed-length Unicode (ASE specific, UTF-16)", "UNICHAR(n)", params0(), DocCategory::DataType));
    v.push(entry("UNIVARCHAR", "Variable-length Unicode (ASE specific, UTF-16)", "UNIVARCHAR(n)", params0(), DocCategory::DataType));
    v.push(entry("UNITEXT", "Variable-length Unicode text (ASE specific)", "UNITEXT", params0(), DocCategory::DataType));
    v.push(entry("BINARY", "Fixed-length binary data", "BINARY(n)", params0(), DocCategory::DataType));
    v.push(entry("VARBINARY", "Variable-length binary data", "VARBINARY(n)", params0(), DocCategory::DataType));
    v.push(entry("IMAGE", "Variable-length binary (up to 2GB)", "IMAGE", params0(), DocCategory::DataType));
    v.push(entry("DATE", "Date value (0001-01-01 to 9999-12-31)", "DATE", params0(), DocCategory::DataType));
    v.push(entry("TIME", "Time value (00:00:00 to 23:59:59)", "TIME", params0(), DocCategory::DataType));
    v.push(entry("DATETIME", "Date and time (1753-01-01 to 9999-12-31, 8 bytes)", "DATETIME", params0(), DocCategory::DataType));
    v.push(entry("SMALLDATETIME", "Small date and time (1900-01-01 to 2079-06-06, 4 bytes)", "SMALLDATETIME", params0(), DocCategory::DataType));
    v.push(entry("BIGDATETIME", "High-precision datetime (ASE 15.7+, 1/1000 sec)", "BIGDATETIME", params0(), DocCategory::DataType));
    v.push(entry("BIGTIME", "High-precision time (ASE 15.7+)", "BIGTIME", params0(), DocCategory::DataType));
    v.push(entry("TIMESTAMP", "Auto-updated binary (unique within database)", "TIMESTAMP", params0(), DocCategory::DataType));
    v.push(entry("BIT", "Boolean (0 or 1)", "BIT", params0(), DocCategory::DataType));
    v.push(entry("UNIQUEIDENTIFIER", "GUID/UUID (16 bytes)", "UNIQUEIDENTIFIER", params0(), DocCategory::DataType));
    assert(entries_view(v@) =~~= datatype_table());
    v
}

/// The function entries, in table order.
pub open spec fn function_table() -> Seq<DocEntryView> {
    seq![
        entry_view("SUBSTRING", "Extracts a substring from a string expression", "SUBSTRING(expression, start, length)", seq!["expression", "start", "length"], DocCategory::Function),
        entry_view("CHAR_LENGTH", "Returns the length of a string in characters", "CHAR_LENGTH(expression)", seq!["expression"], DocCategory::Function),
        entry_view("LEN", "String length (trailing spaces not counted)", "LEN(expression)", seq!["expression"], DocCategory::Function),
        entry_view("UPPER", "Converts a string to uppercase", "UPPER(expression)", seq!["expression"], DocCategory::Function),
        entry_view("LOWER", "Converts a string to lowercase", "LOWER(expression)", seq!["expression"], DocCategory::Function),
        entry_view("LTRIM", "Removes leading spaces", "LTRIM(expression)", seq!["expression"], DocCategory::Function),
        entry_view("RTRIM", "Removes trailing spaces", "RTRIM(expression)", seq!["expression"], DocCategory::Function),
        entry_view("STR_REPLACE", "Replaces all occurrences of a pattern in a string", "STR_REPLACE(source, pattern, replacement)", seq!["source", "pattern", "replacement"], DocCategory::Function),
        entry_view("STUFF", "Deletes and inserts characters at a specified position", "STUFF(source, start, length, insert)", seq!["source", "start", "length", "insert"], DocCategory::Function),
        entry_view("REPLICATE", "Repeat string N times", "REPLICATE(expression, n)", seq!["expression", "n"], DocCategory::Function),
        entry_view("SPACE", "Generate N spaces", "SPACE(n)", seq!["n"], DocCategory::Function),
        entry_view("REVERSE", "Reverse string", "REVERSE(expression)", seq!["expression"], DocCategory::Function),
        entry_view("CHARINDEX", "Find pattern position (1-based)", "CHARINDEX(pattern, expression)", seq!["pattern", "expression"], DocCategory::Function),
        entry_view("PATINDEX", "Pattern index using wildcards (1-based)", "PATINDEX('%pattern%', expression)", seq!["pattern", "expression"], DocCategory::Function),
        entry_view("ABS", "Absolute value", "ABS(expression)", seq!["expression"], DocCategory::Function),
        entry_view("CEILING", "Smallest integer >= value", "CEILING(expression)", seq!["expression"], DocCategory::Function),
        entry_view("FLOOR", "Largest integer <= value", "FLOOR(expression)", seq!["expression"], DocCategory::Function),
        entry_view("ROUND", "Rounds a numeric value to n decimal places", "ROUND(expression, n)", seq!["expression", "n"], DocCategory::Function),
        entry_view("SQRT", "Square root", "SQRT(expression)", seq!["expression"], DocCategory::Function),
        entry_view("POWER", "Raise to power", "POWER(expression, n)", seq!["expression", "n"], DocCategory::Function),
        entry_view("SIGN", "Sign of value (-1, 0, 1)", "SIGN(expression)", seq!["expression"], DocCategory::Function),
        entry_view("GETDATE", "Current date and time", "GETDATE()", seq![], DocCategory::Function),
        entry_view("DATEADD", "Adds an interval to a date", "DATEADD(unit, number, date)", seq!["unit", "number", "date"], DocCategory::Function),
        entry_view("DATEDIFF", "Returns the difference between two dates", "DATEDIFF(unit, date1, date2)", seq!["unit", "date1", "date2"], DocCategory::Function),
        entry_view("DATEPART", "Extracts a part of a date as an integer", "DATEPART(unit, date)", seq!["unit", "date"], DocCategory::Function),
        entry_view("DATENAME", "Extract date part as string", "DATENAME(unit, date)", seq!["unit", "date"], DocCategory::Function),
        entry_view("DAY", "Day of month (1-31)", "DAY(date)", seq!["date"], DocCategory::Function),
        entry_view("MONTH", "Month number (1-12)", "MONTH(date)", seq!["date"], DocCategory::Function),
        entry_view("YEAR", "Year number", "YEAR(date)", seq!["date"], DocCategory::Function),
        entry_view("CONVERT", "Converts an expression to the specified data type", "CONVERT(type, expression[, style])", seq!["type", "expression", "style"], DocCategory::Function),
        entry_view("CAST", "Converts an expression to the specified data type", "CAST(expression AS type)", seq!["expression", "type"], DocCategory::Function),
        entry_view("COUNT", "Returns the number of rows", "COUNT([DISTINCT] expression | *)", seq!["expression"], DocCategory::Function),
        entry_view("SUM", "Returns the sum of values", "SUM([DISTINCT] expression)", seq!["expression"], DocCategory::Function),
        entry_view("AVG", "Returns the average of values", "AVG([DISTINCT] expression)", seq!["expression"], DocCategory::Function),
        entry_view("MIN", "Returns the minimum value", "MIN(expression)", seq!["expression"], DocCategory::Function),
        entry_view("MAX", "Returns the maximum value", "MAX(expression)", seq!["expression"], DocCategory::Function),
        entry_view("ISNULL", "Replaces NULL with the specified replacement value", "ISNULL(expression, replacement)", seq!["expression", "replacement"], DocCategory::Function),
        entry_view("COALESCE", "Returns the first non-NULL expression", "COALESCE(expr1, expr2, ...)", seq!["expr1", "expr2", "..."], DocCategory::Function),
        entry_view("NULLIF", "NULL if expressions are equal", "NULLIF(expr1, expr2)", seq!["expr1", "expr2"], DocCategory::Function),
        entry_view("IDENTITY", "Identity column value", "IDENTITY", seq![], DocCategory::Function),
        entry_view("OBJECT_ID", "Database object ID", "OBJECT_ID('object_name')", seq!["object_name"], DocCategory::Function),
        entry_view("COL_LENGTH", "Column length in bytes", "COL_LENGTH('table', 'column')", seq!["table", "column"], DocCategory::Function),
        entry_view("VALID_NAME", "Check if identifier is valid", "VALID_NAME('name')", seq!["name"], DocCategory::Function),
    ]
}

/// The function entries, in table order.
pub fn functions() -> (r: Vec<DocEntry>)
    ensures
        entries_view(r@) == function_table(),
{
    let mut v: Vec<DocEntry> = Vec::new();
    v.push(entry("SUBSTRING", "Extracts a substring from a string expression", "SUBSTRING(expression, start, length)", params3("expression", "start", "length"), DocCategory::Function));
    v.push(entry("CHAR_LENGTH", "Returns the length of a string in characters", "CHAR_LENGTH(expression)", params1("expression"), DocCategory::Function));
    v.push(entry("LEN", "String length (trailing spaces not counted)", "LEN(expression)", params1("expression"), DocCategory::Function));
    v.push(entry("UPPER", "Converts a string to uppercase", "UPPER(expression)", params1("expression"), DocCategory::Function));
    v.push(entry("LOWER", "Converts a string to lowercase", "LOWER(expression)", params1("expression"), DocCategory::Function));
    v.push(entry("LTRIM", "Removes leading spaces", "LTRIM(expression)", params1("expression"), DocCategory::Function));
    v.push(entry("RTRIM", "Removes trailing spaces", "RTRIM(expression)", params1("expression"), DocCategory::Function));
    v.push(entry("STR_REPLACE", "Replaces all occurrences of a pattern in a string", "STR_REPLACE(source, pattern, replacement)", params3("source", "pattern", "replacement"), DocCategory::Function));
    v.push(entry("STUFF", "Deletes and inserts characters at a specified position", "STUFF(source, start, length, insert)", params4("source", "start", "length", "insert"), DocCategory::Function));
    v.push(entry("REPLICATE", "Repeat string N times", "REPLICATE(expression, n)", params2("expression", "n"), DocCategory::Function));
    v.push(entry("SPACE", "Generate N spaces", "SPACE(n)", params1("n"), DocCategory::Function));
    v.push(entry("REVERSE", "Reverse string", "REVERSE(expression)", params1("expression"), DocCategory::Function));
    v.push(entry("CHARINDEX", "Find pattern position (1-based)", "CHARINDEX(pattern, expression)", params2("pattern", "expression"), DocCategory::Function));
    v.push(entry("PATINDEX", "Pattern index using wildcards (1-based)", "PATINDEX('%pattern%', expression)", params2("pattern", "expression"), DocCategory::Function));
    v.push(entry("ABS", "Absolute value", "ABS(expression)", params1("expression"), DocCategory::Function));
    v.push(entry("CEILING", "Smallest integer >= value", "CEILING(expression)", params1("expression"), DocCategory::Function));
    v.push(entry("FLOOR", "Largest integer <= value", "FLOOR(expression)", params1("expression"), DocCategory::Function));
    v.push(entry("ROUND", "Rounds a numeric value to n decimal places", "ROUND(expression, n)", params2("expression", "n"), DocCategory::Function));
    v.push(entry("SQRT", "Square root", "SQRT(expression)", params1("expression"), DocCategory::Function));
    v.push(entry("POWER", "Raise to power", "POWER(expression, n)", params2("expression", "n"), DocCategory::Function));
    v.push(entry("SIGN", "Sign of value (-1, 0, 1)", "SIGN(expression)", params1("expression"), DocCategory::Function));
    v.push(entry("GETDATE", "Current date and time", "GETDATE()", params0(), DocCategory::Function));
    v.push(entry("DATEADD", "Adds an interval to a date", "DATEADD(unit, number, date)", params3("unit", "number", "date"), DocCategory::Function));
    v.push(entry("DATEDIFF", "Returns the difference between two dates", "DATEDIFF(unit, date1, date2)", params3("unit", "date1", "date2"), DocCategory::Function));
    v.push(entry("DATEPART", "Extracts a part of a date as an integer", "DATEPART(unit, date)", params2("unit", "date"), DocCategory::Function));
    v.push(entry("DATENAME", "Extract date part as string", "DATENAME(unit, date)", params2("unit", "date"), DocCategory::Function));
    v.push(entry("DAY", "Day of month (1-31)", "DAY(date)", params1("date"), DocCategory::Function));
    v.push(entry("MONTH", "Month number (1-12)", "MONTH(date)", params1("date"), DocCategory::Function));
    v.push(entry("YEAR", "Year number", "YEAR(date)", params1("date"), DocCategory::Function));
    v.push(entry("CONVERT", "Converts an expression to the specified data type", "CONVERT(type, expression[, style])", params3("type", "expression", "style"), DocCategory::Function));
    v.push(entry("CAST", "Converts an expression to the specified data type", "CAST(expression AS type)", params2("expression", "type"), DocCategory::Function));
    v.push(entry("COUNT", "Returns the number of rows", "COUNT([DISTINCT] expression | *)", params1("expression"), DocCategory::Function));
    v.push(entry("SUM", "Returns the sum of values", "SUM([DISTINCT] expression)", params1("expression"), DocCategory::Function));
    v.push(entry("AVG", "Returns the average of values", "AVG([DISTINCT] expression)", params1("expression"), DocCategory::Function));
    v.push(entry("MIN", "Returns the minimum value", "MIN(expression)", params1("expression"), DocCategory::Function));
    v.push(entry("MAX", "Returns the maximum value", "MAX(expression)", params1("expression"), DocCategory::Function));
    v.push(entry("ISNULL", "Replaces NULL with the specified replacement value", "ISNULL(expression, replacement)", params2("expression", "replacement"), DocCategory::Function));
    v.push(entry("COALESCE", "Returns the first non-NULL expression", "COALESCE(expr1, expr2, ...)", params3("expr1", "expr2", "..."), DocCategory::Function));
    v.push(entry("NULLIF", "NULL if expressions are equal", "NULLIF(expr1, expr2)", params2("expr1", "expr2"), DocCategory::Function));
    v.push(entry("IDENTITY", "Identity column value", "IDENTITY", params0(), DocCategory::Function));
    v.push(entry("OBJECT_ID", "Database object ID", "OBJECT_ID('object_name')", params1("object_name"), DocCategory::Function));
    v.push(entry("COL_LENGTH", "Column length in bytes", "COL_LENGTH('table', 'column')", params2("table", "column"), DocCategory::Function));
    v.push(entry("VALID_NAME", "Check if identifier is valid", "VALID_NAME('name')", params1("name"), DocCategory::Function));
    assert(entries_view(v@) =~~= function_table());
    v
}

/// The system variable entries, in table order.
pub open spec fn system_variable_table() -> Seq<DocEntryView> {
    seq![
        entry_view("@@IDENTITY", "Last identity value inserted", "@@IDENTITY", seq![], DocCategory::SystemVariable),
        entry_view("@@ROWCOUNT", "Number of rows affected by the last statement", "@@ROWCOUNT", seq![], DocCategory::SystemVariable),
        entry_view("@@ERROR", "Error number for the last T-SQL statement executed", "@@ERROR", seq![], DocCategory::SystemVariable),
        entry_view("@@VERSION", "Version information of the ASE server", "@@VERSION", seq![], DocCategory::SystemVariable),
        entry_view("@@SERVERNAME", "Name of the local server", "@@SERVERNAME", seq![], DocCategory::SystemVariable),
        entry_view("@@SPID", "Server process ID for the current session", "@@SPID", seq![], DocCategory::SystemVariable),
        entry_view("@@TRANCOUNT", "Number of active transactions for the current session", "@@TRANCOUNT", seq![], DocCategory::SystemVariable),
        entry_view("@@DATEFIRST", "First day of the week (1=Monday, 7=Sunday)", "@@DATEFIRST", seq![], DocCategory::SystemVariable),
    ]
}

/// The system variable entries, in table order.
pub fn system_variables() -> (r: Vec<DocEntry>)
    ensures
        entries_view(r@) == system_variable_table(),
{
    let mut v: Vec<DocEntry> = Vec::new();
    v.push(entry("@@IDENTITY", "Last identity value inserted", "@@IDENTITY", params0(), DocCategory::SystemVariable));
    v.push(entry("@@ROWCOUNT", "Number of rows affected by the last statement", "@@ROWCOUNT", params0(), DocCategory::SystemVariable));
    v.push(entry("@@ERROR", "Error number for the last T-SQL statement executed", "@@ERROR", params0(), DocCategory::SystemVariable));
    v.push(entry("@@VERSION", "Version information of the ASE server", "@@VERSION", params0(), DocCategory::SystemVariable));
    v.push(entry("@@SERVERNAME", "Name of the local server", "@@SERVERNAME", params0(), DocCategory::SystemVariable));
    v.push(entry("@@SPID", "Server process ID for the current session", "@@SPID", params0(), DocCategory::SystemVariable));
    v.push(entry("@@TRANCOUNT", "Number of active transactions for the current session", "@@TRANCOUNT", params0(), DocCategory::SystemVariable));
    v.push(entry("@@DATEFIRST", "First day of the week (1=Monday, 7=Sunday)", "@@DATEFIRST", params0(), DocCategory::SystemVariable));
    assert(entries_view(v@) =~~= system_variable_table());
    v
}


/// No two entries of `t` share a name.
pub open spec fn names_distinct(t: Seq<DocEntryView>) -> bool {
    forall|i: int, j: int| 0 <= i < t.len() && 0 <= j < t.len() && i != j ==> t[i].name != t[j].name
}

/// No other entry of `t` has the name of entry `i`.
spec fn name_unique_at(t: Seq<DocEntryView>, i: int) -> bool {
    forall|j: int| 0 <= j < t.len() && j != i ==> #[trigger] t[j].name != t[i].name
}

/// The function entries have distinct names.
#[verifier::rlimit(100)]
proof fn lemma_function_names_distinct()
    ensures
        names_distinct(function_table()),
{
    reveal_strlit("SUBSTRING");
    assert("SUBSTRING"@ =~= seq!['S', 'U', 'B', 'S', 'T', 'R', 'I', 'N', 'G']);
    reveal_strlit("CHAR_LENGTH");
    assert("CHAR_LENGTH"@ =~= seq!['C', 'H', 'A', 'R', '_', 'L', 'E', 'N', 'G', 'T', 'H']);
    reveal_strlit("LEN");
    assert("LEN"@ =~= seq!['L', 'E', 'N']);
    reveal_strlit("UPPER");
    assert("UPPER"@ =~= seq!['U', 'P', 'P', 'E', 'R']);
    reveal_strlit("LOWER");
    assert("LOWER"@ =~= seq!['L', 'O', 'W', 'E', 'R']);
    reveal_strlit("LTRIM");
    assert("LTRIM"@ =~= seq!['L', 'T', 'R', 'I', 'M']);
    reveal_strlit("RTRIM");
    assert("RTRIM"@ =~= seq!['R', 'T', 'R', 'I', 'M']);
    reveal_strlit("STR_REPLACE");
    assert("STR_REPLACE"@ =~= seq!['S', 'T', 'R', '_', 'R', 'E', 'P', 'L', 'A', 'C', 'E']);
    reveal_strlit("STUFF");
    assert("STUFF"@ =~= seq!['S', 'T', 'U', 'F', 'F']);
    reveal_strlit("REPLICATE");
    assert("REPLICATE"@ =~= seq!['R', 'E', 'P', 'L', 'I', 'C', 'A', 'T', 'E']);
    reveal_strlit("SPACE");
    assert("SPACE"@ =~= seq!['S', 'P', 'A', 'C', 'E']);
    reveal_strlit("REVERSE");
    assert("REVERSE"@ =~= seq!['R', 'E', 'V', 'E', 'R', 'S', 'E']);
    reveal_strlit("CHARINDEX");
    assert("CHARINDEX"@ =~= seq!['C', 'H', 'A', 'R', 'I', 'N', 'D', 'E', 'X']);
    reveal_strlit("PATINDEX");
    assert("PATINDEX"@ =~= seq!['P', 'A', 'T', 'I', 'N', 'D', 'E', 'X']);
    reveal_strlit("ABS");
    assert("ABS"@ =~= seq!['A', 'B', 'S']);
    reveal_strlit("CEILING");
    assert("CEILING"@ =~= seq!['C', 'E', 'I', 'L', 'I', 'N', 'G']);
    reveal_strlit("FLOOR");
    assert("FLOOR"@ =~= seq!['F', 'L', 'O', 'O', 'R']);
    reveal_strlit("ROUND");
    assert("ROUND"@ =~= seq!['R', 'O', 'U', 'N', 'D']);
    reveal_strlit("SQRT");
    assert("SQRT"@ =~= seq!['S', 'Q', 'R', 'T']);
    reveal_strlit("POWER");
    assert("POWER"@ =~= seq!['P', 'O', 'W', 'E', 'R']);
    reveal_strlit("SIGN");
    assert("SIGN"@ =~= seq!['S', 'I', 'G', 'N']);
    reveal_strlit("GETDATE");
    assert("GETDATE"@ =~= seq!['G', 'E', 'T', 'D', 'A', 'T', 'E']);
    reveal_strlit("DATEADD");
    assert("DATEADD"@ =~= seq!['D', 'A', 'T', 'E', 'A', 'D', 'D']);
    reveal_strlit("DATEDIFF");
    assert("DATEDIFF"@ =~= seq!['D', 'A', 'T', 'E', 'D', 'I', 'F', 'F']);
    reveal_strlit("DATEPART");
    assert("DATEPART"@ =~= seq!['D', 'A', 'T', 'E', 'P', 'A', 'R', 'T']);
    reveal_strlit("DATENAME");
    assert("DATENAME"@ =~= seq!['D', 'A', 'T', 'E', 'N', 'A', 'M', 'E']);
    reveal_strlit("DAY");
    assert("DAY"@ =~= seq!['D', 'A', 'Y']);
    reveal_strlit("MONTH");
    assert("MONTH"@ =~= seq!['M', 'O', 'N', 'T', 'H']);
    reveal_strlit("YEAR");
    assert("YEAR"@ =~= seq!['Y', 'E', 'A', 'R']);
    reveal_strlit("CONVERT");
    assert("CONVERT"@ =~= seq!['C', 'O', 'N', 'V', 'E', 'R', 'T']);
    reveal_strlit("CAST");
    assert("CAST"@ =~= seq!['C', 'A', 'S', 'T']);
    reveal_strlit("COUNT");
    assert("COUNT"@ =~= seq!['C', 'O', 'U', 'N', 'T']);
    reveal_strlit("SUM");
    assert("SUM"@ =~= seq!['S', 'U', 'M']);
    reveal_strlit("AVG");
    assert("AVG"@ =~= seq!['A', 'V', 'G']);
    reveal_strlit("MIN");
    assert("MIN"@ =~= seq!['M', 'I', 'N']);
    reveal_strlit("MAX");
    assert("MAX"@ =~= seq!['M', 'A', 'X']);
    reveal_strlit("ISNULL");
    assert("ISNULL"@ =~= seq!['I', 'S', 'N', 'U', 'L', 'L']);
    reveal_strlit("COALESCE");
    assert("COALESCE"@ =~= seq!['C', 'O', 'A', 'L', 'E', 'S', 'C', 'E']);
    reveal_strlit("NULLIF");
    assert("NULLIF"@ =~= seq!['N', 'U', 'L', 'L', 'I', 'F']);
    reveal_strlit("IDENTITY");
    assert("IDENTITY"@ =~= seq!['I', 'D', 'E', 'N', 'T', 'I', 'T', 'Y']);
    reveal_strlit("OBJECT_ID");
    assert("OBJECT_ID"@ =~= seq!['O', 'B', 'J', 'E', 'C', 'T', '_', 'I', 'D']);
    reveal_strlit("COL_LENGTH");
    assert("COL_LENGTH"@ =~= seq!['C', 'O', 'L', '_', 'L', 'E', 'N', 'G', 'T', 'H']);
    reveal_strlit("VALID_NAME");
    assert("VALID_NAME"@ =~= seq!['V', 'A', 'L', 'I', 'D', '_', 'N', 'A', 'M', 'E']);
    let t = function_table();
    assert(name_unique_at(t, 0));
    assert(name_unique_at(t, 1));
    assert(name_unique_at(t, 2));
    assert(name_unique_at(t, 3));
    assert(name_unique_at(t, 4));
    assert(name_unique_at(t, 5));
    assert(name_unique_at(t, 6));
    assert(name_unique_at(t, 7));
    assert(name_unique_at(t, 8));
    assert(name_unique_at(t, 9));
    assert(name_unique_at(t, 10));
    assert(name_unique_at(t, 11));
    assert(name_unique_at(t, 12));
    assert(name_unique_at(t, 13));
    assert(name_unique_at(t, 14));
    assert(name_unique_at(t, 15));
    assert(name_unique_at(t, 16));
    assert(name_unique_at(t, 17));
    assert(name_unique_at(t, 18));
    assert(name_unique_at(t, 19));
    assert(name_unique_at(t, 20));
    assert(name_unique_at(t, 21));
    assert(name_unique_at(t, 22));
    assert(name_unique_at(t, 23));
    assert(name_unique_at(t, 24));
    assert(name_unique_at(t, 25));
    assert(name_unique_at(t, 26));
    assert(name_unique_at(t, 27));
    assert(name_unique_at(t, 28));
    assert(name_unique_at(t, 29));
    assert(name_unique_at(t, 30));
    assert(name_unique_at(t, 31));
    assert(name_unique_at(t, 32));
    assert(name_unique_at(t, 33));
    assert(name_unique_at(t, 34));
    assert(name_unique_at(t, 35));
    assert(name_unique_at(t, 36));
    assert(name_unique_at(t, 37));
    assert(name_unique_at(t, 38));
    assert(name_unique_at(t, 39));
    assert(name_unique_at(t, 40));
    assert(name_unique_at(t, 41));
    assert(name_unique_at(t, 42));
    assert forall|i: int, j: int| 0 <= i < t.len() && 0 <= j < t.len() && i != j implies t[i].name != t[j].name by {
        assert(name_unique_at(t, i));
    }
}

/// A function entry is found under exactly its name, case-sensitively;
/// function names are distinct, so the entry found is the only one of that
/// name (the first as well as the last); and nothing is found when no
/// function has that name.
pub proof fn law_lookup_function(name: Seq<char>)
    ensures
        spec_lookup_function(name) matches Some(e) ==> e.name == name && e.category == DocCategory::Function,
        forall|k: int| 0 <= k < function_table().len() && #[trigger] function_table()[k].name == name
            ==> spec_lookup_function(name) == Some(function_table()[k]),
        spec_lookup_function(name) is None <==> forall|k: int| 0 <= k < function_table().len()
            ==> #[trigger] function_table()[k].name != name,
{
    let t = function_table();
    lemma_last_named(t, name);
    lemma_function_names_distinct();
    assert forall|k: int| 0 <= k < t.len() implies #[trigger] t[k].category == DocCategory::Function by {}
}

/// An entry is found under exactly its name, case-sensitively: a keyword,
/// data type or system variable of that name (the last one in that order)
/// when there is one, which is never a function; otherwise the function of
/// that name.
pub proof fn law_lookup(name: Seq<char>)
    ensures
        spec_lookup(name) matches Some(e) ==> e.name == name,
        ({
            let o = keyword_table() + datatype_table() + system_variable_table();
            &&& (exists|k: int| 0 <= k < o.len() && #[trigger] o[k].name == name) ==> spec_lookup(name)
                == lookup_in(o, name) && spec_lookup(name)->0.category != DocCategory::Function
            &&& (forall|k: int| 0 <= k < o.len() ==> #[trigger] o[k].name != name) ==> spec_lookup(name)
                == spec_lookup_function(name)
        }),
{
    let o = keyword_table() + datatype_table() + system_variable_table();
    lemma_last_named(o, name);
    law_lookup_function(name);
    assert forall|k: int| 0 <= k < o.len() implies #[trigger] o[k].category != DocCategory::Function by {}
}

} // verus!
