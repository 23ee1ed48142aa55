//! The query runner: prepares one user-supplied SQL string, writes the
//! engine-reported column names as the CSV header, then every result row as a
//! CSV record, each value in its textual representation.
use vstd::prelude::*;

use crate::csvmodel::{encoded_output, encoded_record, encoded_rows, lemma_encoded_rows_snoc};
use crate::csvwrite::push_record;
use crate::errors::Failure;
use crate::store::{column_names, column_text, error_text, next_row, prepare, start_query};
use crate::text::chars_to_string;

verus! {

/// A header and data rows whose output this is: every data row as wide as the
/// header.
pub open spec fn is_query_output(out: Seq<char>) -> bool {
    exists|cols: Seq<Seq<char>>, rows: Seq<Seq<Seq<char>>>|
        (forall|i: int| 0 <= i < rows.len() ==> rows[i].len() == cols.len()) && out
            == #[trigger] encoded_output(cols, rows)
}

/// Runs one SQL string against the store behind `conn` and returns the CSV
/// text produced so far together with the failure that stopped it, if any.
///
/// On success the text is the full output: the engine-reported column names
/// as the header record, then one record per result row, each value rendered
/// as text. SQL the engine cannot compile is a `QueryCompile` failure with
/// its diagnostic text and no output at all; a runtime failure mid-iteration
/// is a `QueryExec` failure, and the records already produced stay in the
/// returned text (partial output is not retracted).
pub fn run_query(conn: &rusqlite::Connection, sql: &str) -> (r: (String, Option<Failure>))
    ensures
        r.1 is None ==> is_query_output(r.0@),
        (r.1 matches Some(e) && e is QueryExec) ==> is_query_output(r.0@),
        r.1 matches Some(e) ==> (e is QueryCompile || e is QueryExec),
        (r.1 matches Some(e) && e is QueryCompile) ==> r.0@.len() == 0,
{
    let mut stmt = match prepare(conn, sql) {
        Ok(s) => s,
        Err(e) => {
            let mut m = String::new();
            m.append("error preparing SQL: ");
            m.append(error_text(&e).as_str());
            return (String::new(), Some(Failure::QueryCompile(m)));
        },
    };
    let cols = column_names(&stmt);
    let ghost colsd = cols.deep_view();
    let mut buf: Vec<char> = Vec::new();
    push_record(&mut buf, &cols);
    let ghost mut rowsg: Seq<Seq<Seq<char>>> = Seq::empty();
    proof {
        assert(encoded_rows(rowsg) =~= Seq::<char>::empty());
        assert(buf@ =~= encoded_record(colsd) + encoded_rows(rowsg));
    }
    let mut rows = match start_query(&mut stmt) {
        Ok(r) => r,
        Err(e) => {
            proof {
                lemma_output_witness(colsd, rowsg);
            }
            return (chars_to_string(&buf), Some(Failure::QueryExec(error_text(&e))));
        },
    };
    let mut budget: usize = usize::MAX;
    loop
        invariant
            buf@ == encoded_record(colsd) + encoded_rows(rowsg),
            forall|i: int| 0 <= i < rowsg.len() ==> rowsg[i].len() == colsd.len(),
            colsd == cols.deep_view(),
            colsd.len() == cols@.len(),
        decreases budget,
    {
        if budget == 0 {
            proof {
                lemma_output_witness(colsd, rowsg);
            }
            let mut m = String::new();
            m.append("result set too long to drain");
            return (chars_to_string(&buf), Some(Failure::QueryExec(m)));
        }
        budget = budget - 1;
        match next_row(&mut rows) {
            Err(e) => {
                proof {
                    lemma_output_witness(colsd, rowsg);
                }
                return (chars_to_string(&buf), Some(Failure::QueryExec(error_text(&e))));
            },
            Ok(None) => {
                break ;
            },
            Ok(Some(row)) => {
                let mut vals: Vec<String> = Vec::new();
                let mut j: usize = 0;
                while j < cols.len()
                    invariant
                        j <= cols@.len(),
                        vals@.len() == j,
                        buf@ == encoded_record(colsd) + encoded_rows(rowsg),
                        forall|i: int| 0 <= i < rowsg.len() ==> rowsg[i].len() == colsd.len(),
                    decreases cols@.len() - j,
                {
                    match column_text(row, j) {
                        Ok(t) => {
                            vals.push(t);
                        },
                        Err(e) => {
                            proof {
                                lemma_output_witness(colsd, rowsg);
                            }
                            return (
                                chars_to_string(&buf),
                                Some(Failure::QueryExec(error_text(&e))),
                            );
                        },
                    }
                    j = j + 1;
                }
                let ghost vd = vals.deep_view();
                push_record(&mut buf, &vals);
                proof {
                    lemma_encoded_rows_snoc(rowsg, vd);
                    rowsg = rowsg.push(vd);
                    assert(vd.len() == colsd.len());
                    assert(forall|i: int|
                        0 <= i < rowsg.len() ==> rowsg[i].len() == colsd.len());
                }
            },
        }
    }
    proof {
        lemma_output_witness(colsd, rowsg);
    }
    (chars_to_string(&buf), None)
}

/// A header and rows of its width witness that their encoding is a query
/// output.
proof fn lemma_output_witness(cols: Seq<Seq<char>>, rows: Seq<Seq<Seq<char>>>)
    requires
        forall|i: int| 0 <= i < rows.len() ==> rows[i].len() == cols.len(),
    ensures
        is_query_output(encoded_output(cols, rows)),
{
    assert((forall|i: int| 0 <= i < rows.len() ==> rows[i].len() == cols.len())
        && encoded_output(cols, rows) == encoded_output(cols, rows));
}

} // verus!
