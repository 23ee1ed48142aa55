//! Generation of the two SQL statements the loader issues: the `CREATE TABLE`
//! with one text column per CSV header field, and the parameterized `INSERT`
//! shaped to the column count.
use vstd::prelude::*;
use vstd::string::{StrSliceExecFns, StringExecFns};

verus! {

/// The column list of the generated DDL: each header as a text column, in
/// header order, with the literal header text as the column name.
pub open spec fn columns_clause(headers: Seq<Seq<char>>) -> Seq<char>
    decreases headers.len(),
{
    if headers.len() == 0 {
        Seq::empty()
    } else if headers.len() == 1 {
        headers[0] + " TEXT"@
    } else {
        headers[0] + " TEXT, "@ + columns_clause(headers.drop_first())
    }
}

/// The generated DDL for a table named `table` with the given headers.
pub open spec fn create_table_stmt(table: Seq<char>, headers: Seq<Seq<char>>) -> Seq<char> {
    "CREATE TABLE "@ + table + " ("@ + columns_clause(headers) + ")"@
}

/// The parameter list of the generated insert: one placeholder per column.
pub open spec fn placeholders(n: nat) -> Seq<char>
    decreases n,
{
    if n == 0 {
        Seq::empty()
    } else if n == 1 {
        "?"@
    } else {
        "?, "@ + placeholders((n - 1) as nat)
    }
}

/// The generated DML for inserting one row of `n` text values into `table`.
pub open spec fn insert_stmt(table: Seq<char>, n: nat) -> Seq<char> {
    "INSERT INTO "@ + table + " VALUES ("@ + placeholders(n) + ")"@
}

/// Builds the `CREATE TABLE` statement: one text column per header field,
/// header order and literal header text preserved (no sanitization; a name
/// the engine rejects surfaces as a store failure when the DDL runs).
pub fn create_table_sql(table: &str, headers: &Vec<String>) -> (out: String)
    ensures
        out@ == create_table_stmt(table@, headers.deep_view()),
{
    let ghost hd = headers.deep_view();
    let mut out = String::new();
    out.append("CREATE TABLE ");
    out.append(table);
    out.append(" (");
    let ghost head = "CREATE TABLE "@ + table@ + " ("@;
    if headers.len() > 0 {
        proof {
            assert(hd.skip(0) =~= hd);
        }
        let mut i: usize = 0;
        while i < headers.len() - 1
            invariant
                i < headers@.len(),
                hd == headers.deep_view(),
                hd.len() == headers@.len(),
                head == "CREATE TABLE "@ + table@ + " ("@,
                head + columns_clause(hd) == out@ + columns_clause(hd.skip(i as int)),
            decreases headers@.len() - i,
        {
            proof {
                assert(hd.skip(i as int).len() > 1);
                assert(hd.skip(i as int)[0] == hd[i as int]);
                assert(hd.skip(i as int).drop_first() =~= hd.skip(i + 1));
                assert(headers@[i as int].deep_view() == hd[i as int]);
            }
            let ghost out0 = out@;
            out.append(headers[i].as_str());
            out.append(" TEXT, ");
            proof {
                assert(out@ =~= out0 + (hd[i as int] + " TEXT, "@));
                assert(columns_clause(hd.skip(i as int)) =~= (hd[i as int] + " TEXT, "@)
                    + columns_clause(hd.skip(i + 1)));
                assert(head + columns_clause(hd) =~= out@ + columns_clause(hd.skip(i + 1)));
            }
            i = i + 1;
        }
        proof {
            assert(hd.skip(i as int).len() == 1);
            assert(hd.skip(i as int)[0] == hd[i as int]);
            assert(headers@[i as int].deep_view() == hd[i as int]);
            assert(columns_clause(hd.skip(i as int)) == hd[i as int] + " TEXT"@);
        }
        let ghost out1 = out@;
        out.append(headers[i].as_str());
        out.append(" TEXT");
        proof {
            assert(out@ =~= out1 + (hd[i as int] + " TEXT"@));
            assert(out@ =~= head + columns_clause(hd));
        }
    } else {
        proof {
            assert(out@ =~= head + columns_clause(hd));
        }
    }
    out.append(")");
    proof {
        assert(out@ =~= create_table_stmt(table@, hd));
    }
    out
}

/// Builds the parameterized `INSERT` statement reused for every data row of a
/// table with `n` columns.
pub fn insert_sql(table: &str, n: usize) -> (out: String)
    ensures
        out@ == insert_stmt(table@, n as nat),
{
    let mut out = String::new();
    out.append("INSERT INTO ");
    out.append(table);
    out.append(" VALUES (");
    let ghost head = "INSERT INTO "@ + table@ + " VALUES ("@;
    let mut i: usize = 0;
    while i < n
        invariant
            i <= n,
            head == "INSERT INTO "@ + table@ + " VALUES ("@,
            head + placeholders(n as nat) == out@ + placeholders((n - i) as nat),
        decreases n - i,
    {
        let ghost out0 = out@;
        if i + 1 < n {
            out.append("?, ");
            proof {
                assert(placeholders((n - i) as nat) =~= "?, "@ + placeholders((n - i - 1) as nat));
                assert(out@ =~= out0 + "?, "@);
                assert(head + placeholders(n as nat) =~= out@ + placeholders((n - i - 1) as nat));
            }
        } else {
            out.append("?");
            proof {
                assert(placeholders((n - i) as nat) == "?"@);
                assert(out@ =~= out0 + "?"@);
                assert(placeholders((n - i - 1) as nat) =~= Seq::<char>::empty());
                assert(head + placeholders(n as nat) =~= out@ + placeholders((n - i - 1) as nat));
            }
        }
        i = i + 1;
    }
    out.append(")");
    proof {
        assert(placeholders((n - i) as nat) =~= Seq::<char>::empty());
        assert(out@ =~= head + placeholders(n as nat) + ")"@);
        assert(out@ =~= insert_stmt(table@, n as nat));
    }
    out
}

} // verus!
