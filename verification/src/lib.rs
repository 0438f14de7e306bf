//! Resolution of OpenAPI schemas into a small algebra of types, their
//! canonical form, the signatures of the operations of a document, and
//! the TypeScript text that declares them.

pub mod canon;
pub mod db;
pub mod document;
pub mod error;
pub mod fields;
pub mod generate;
pub mod operation;
pub mod order;
pub mod outside;
pub mod resolve;
pub mod schema;
pub mod simplify;
pub mod text;
pub mod ts;
pub mod types;

pub use crate::document::{Config, InputApi};
pub use crate::generate::generate_ts;
pub use crate::db::Database;
