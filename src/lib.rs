//! Loads a health-data export into a relational store whose schema is
//! derived from the data itself: a first pass over the document's events
//! builds the tables, a second pass turns each element into a typed row.
pub mod text;
pub mod value;
pub mod event;
pub mod schema;
pub mod row;
pub mod route;
pub mod sql;

pub use sql::get_valid_sqlite_identifier;
