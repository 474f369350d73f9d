//! A small tabular data store. Named databases act as namespaces for
//! tables; each table owns an ordered schema of typed columns and an
//! ordered sequence of row entries; a handful of CRUD-style operations
//! manipulates them.
//!
//! The library holds the store's logic: schema definition, type-checked
//! insertion, linear-scan filtered selection and deletion, and schema
//! evolution. Reading and writing the backing files is left to the caller,
//! which hands the loaded state in and persists the result.
pub mod database;
pub mod entry;
pub mod schema;
pub mod table;
pub mod query;
pub mod text;
pub mod types;
