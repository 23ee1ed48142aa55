//! The failure taxonomy: every way a load or a query can go wrong, each with
//! the diagnostic text that the caller reports.
use vstd::prelude::*;

verus! {

/// One failure of a load or a query. Each variant carries diagnostic text
/// (offending table name, file path, or the engine's own message).
pub enum Failure {
    /// A bad invocation: malformed `TABLE:FILE` value or wrong argument count.
    Usage(String),
    /// A malformed CSV input file (for instance an unterminated quote).
    CsvParse(String),
    /// A CSV input with no header record at all.
    Schema(String),
    /// A data row whose field count differs from the header's.
    MalformedRow(String),
    /// A DDL or DML statement the relational engine rejected or failed.
    Store(String),
    /// User SQL the engine could not compile.
    QueryCompile(String),
    /// A runtime failure while the result rows were being read.
    QueryExec(String),
}

impl Failure {
    /// The diagnostic text carried by this failure.
    pub fn text(&self) -> (r: &String)
        ensures
            r == self.spec_text(),
    {
        match self {
            Failure::Usage(m) => m,
            Failure::CsvParse(m) => m,
            Failure::Schema(m) => m,
            Failure::MalformedRow(m) => m,
            Failure::Store(m) => m,
            Failure::QueryCompile(m) => m,
            Failure::QueryExec(m) => m,
        }
    }

    /// The diagnostic text, as a specification-level value.
    pub open spec fn spec_text(&self) -> String {
        match self {
            Failure::Usage(m) => *m,
            Failure::CsvParse(m) => *m,
            Failure::Schema(m) => *m,
            Failure::MalformedRow(m) => *m,
            Failure::Store(m) => *m,
            Failure::QueryCompile(m) => *m,
            Failure::QueryExec(m) => *m,
        }
    }
}

} // verus!
