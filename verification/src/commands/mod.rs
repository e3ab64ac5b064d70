//! The commands, from parsed input to the document they print.

pub mod check;
pub mod check_laws;
