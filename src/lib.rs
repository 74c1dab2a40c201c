//! Schema-driven planning of updates to a flat key-value configuration
//! store, and reading of display values back out of it.

pub mod form;
pub mod keys;
pub mod laws;
pub mod schema;
pub mod settings;
pub mod update;
