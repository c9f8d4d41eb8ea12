//! Reading, writing and querying STC tables: a binary container of one table of typed rows.
pub mod access;
pub mod bytes;
pub mod catchdata;
pub mod convert;
pub mod definitions;
pub mod error;
pub mod laws;
pub mod named;
pub mod table;
pub mod text;
pub mod value;

pub use error::Error;
pub use named::NamedTable;
pub use table::Table;
pub use value::Value;
