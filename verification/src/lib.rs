//! Loads CSV files as all-text tables into an ephemeral in-process relational
//! store, runs one SQL query against them, and renders the result as CSV.
//!
//! The core is verified: the CSV reader and writer adapters (with the
//! quote/unquote round-trip laws in `csvmodel`), the generated DDL and DML
//! (`sqlgen`), the table loader's arity checking (`loader`), the query
//! runner's output shape (`runner`), and the `TABLE:FILE` option parsing
//! (`cli`). The relational engine itself is an external collaborator, driven
//! through the narrow trusted boundary in `store`.

pub mod cli;
pub mod csvmodel;
pub mod csvread;
pub mod csvwrite;
pub mod errors;
pub mod loader;
pub mod runner;
pub mod sqlgen;
pub mod store;
pub mod text;
