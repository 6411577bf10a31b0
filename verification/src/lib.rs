//! Schema descriptors for relational tables, their validation, and the SQL
//! text derived from them.

pub mod attach;
pub mod clock;
pub mod operations;
pub mod query;
pub mod record;
pub mod registry;
pub mod schema;
pub mod statement;
pub mod text;
pub mod value;
