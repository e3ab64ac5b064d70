//! The `report` command's data model.

pub mod model;

pub use model::Report;
