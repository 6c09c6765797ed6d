//! Convergence core of a declarative configuration tool: layered hierarchy
//! lookups and a dirty-tracked ledger of what has already been applied.
pub mod clock;
pub mod command;
pub mod digest;
pub mod directive;
pub mod error;
pub mod hierarchy;
pub mod state;
pub mod table;
pub mod text;
pub mod yaml;

pub use crate::state::{DiskState, State};
