//! The table loader: reads a CSV text, creates one text column per header
//! field, and inserts every data row through one prepared statement.
use vstd::prelude::*;
use vstd::string::StringExecFns;

use crate::csvmodel::parse_records;
use crate::csvread::parse_csv;
use crate::errors::Failure;
use crate::sqlgen::{create_table_sql, insert_sql};
use crate::store::{error_text, exec_sql, prepare, stmt_execute};

verus! {

/// Loads the CSV text into a new table named `table` in the store behind
/// `conn`: one text column per header field (header order and literal header
/// text preserved), then every data row inserted verbatim.
///
/// The CSV text decides the non-store failures exactly: a text the reader
/// rejects is a `CsvParse` failure, a readable text with no record at all is
/// a `Schema` failure, and a data row whose field count differs from the
/// header's aborts the load with a `MalformedRow` failure before that row is
/// bound. What the engine rejects (a duplicate table name, a column name it
/// will not take) comes back as a `Store` failure with its diagnostic text.
pub fn load_table(conn: &rusqlite::Connection, table: &str, text: &str) -> (r: Result<
    (),
    Failure,
>)
    ensures
        (r matches Err(e) && e is CsvParse) <==> parse_records(text@) is None,
        (r matches Err(e) && e is Schema) <==> (parse_records(text@) matches Some(recs)
            && recs.len() == 0),
        r is Ok ==> (parse_records(text@) matches Some(recs) && recs.len() >= 1 && (forall|i: int|
            1 <= i < recs.len() ==> #[trigger] recs[i].len() == recs[0].len())),
        (r matches Err(e) && e is MalformedRow) ==> (parse_records(text@) matches Some(recs)
            && exists|i: int| 1 <= i < recs.len() && #[trigger] recs[i].len() != recs[0].len()),
        r matches Err(e) ==> (e is CsvParse || e is Schema || e is MalformedRow || e is Store),
{
    let records = match parse_csv(text) {
        Ok(r) => r,
        Err(e) => {
            return Err(e);
        },
    };
    let ghost recs = records.deep_view();
    if records.len() == 0 {
        let mut m = String::from_str("no header record in CSV for table ");
        m.append(table);
        return Err(Failure::Schema(m));
    }
    let ncols = records[0].len();
    let ddl = create_table_sql(table, &records[0]);
    match exec_sql(conn, ddl.as_str()) {
        Ok(_) => {},
        Err(e) => {
            let mut m = String::from_str("error creating table ");
            m.append(table);
            m.append(": ");
            m.append(error_text(&e).as_str());
            return Err(Failure::Store(m));
        },
    }
    let dml = insert_sql(table, ncols);
    let mut stmt = match prepare(conn, dml.as_str()) {
        Ok(s) => s,
        Err(e) => {
            let mut m = String::from_str("error preparing insert for table ");
            m.append(table);
            m.append(": ");
            m.append(error_text(&e).as_str());
            return Err(Failure::Store(m));
        },
    };
    let mut i: usize = 1;
    while i < records.len()
        invariant
            1 <= i <= records@.len(),
            recs == records.deep_view(),
            parse_records(text@) == Some(recs),
            recs.len() >= 1,
            recs.len() == records@.len(),
            ncols == recs[0].len(),
            forall|j: int| 1 <= j < i ==> #[trigger] recs[j].len() == recs[0].len(),
        decreases records@.len() - i,
    {
        proof {
            assert(records@[i as int].deep_view() == recs[i as int]);
        }
        if records[i].len() != ncols {
            proof {
                assert(1 <= i < recs.len() && recs[i as int].len() != recs[0].len());
            }
            let mut m = String::from_str("row with wrong field count in table ");
            m.append(table);
            return Err(Failure::MalformedRow(m));
        }
        match stmt_execute(&mut stmt, &records[i]) {
            Ok(_) => {},
            Err(e) => {
                let mut m = String::from_str("error inserting row into table ");
                m.append(table);
                m.append(": ");
                m.append(error_text(&e).as_str());
                return Err(Failure::Store(m));
            },
        }
        i = i + 1;
    }
    Ok(())
}

} // verus!
