//! Schema snapshots of a PostgreSQL database, the diff between two of them,
//! and the SQL that migrates a database forward and back.
pub mod diff;
pub mod naming;
pub mod order;
pub mod parse;
pub mod pool;
pub mod query;
pub mod schema;
pub mod snapshot;

pub use diff::{diff, diff_enum, diff_table, Diff, DiffElement, State};
pub use order::{order, resolve_order};
pub use schema::{Column, Element, Enum, Table, Ty};
