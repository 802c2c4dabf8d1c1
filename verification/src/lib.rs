//! Core of a database-access gateway: it compiles declarative CRUD actions
//! into parameterized SQL with an ordered, type-checked parameter list,
//! caches read results in a bounded LRU keyed per table, and dispatches
//! actions so that every committed write invalidates the cached reads of
//! the table it touched.

pub mod cache;
pub mod db;
pub mod query;
pub mod scalar;
pub mod text;
