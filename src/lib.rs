//! Loads a relational schema and a matching dataset, validates both, and
//! compiles "scope queries" that walk the schema's foreign-key graph from a
//! root query into one SQL statement, then rebuilds the flat path/value rows
//! it returns into nested documents.
pub mod text;
pub mod schema;
pub mod dataset;
pub mod display;
pub mod messages;
pub mod compiler;
pub mod store;
pub mod nest;
pub mod bootstrap;
pub mod script;
