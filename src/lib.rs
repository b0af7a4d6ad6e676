//! Loading two-column numeric data from delimited text: each line that holds
//! the delimiter gives one point, its two fields trimmed and parsed.

pub mod dialog;
pub mod laws;
pub mod loader;
pub mod text;

pub use dialog::{next_step, succeeded_after, LoadStep, PickOutcome};
pub use loader::{load_pairs, split_records, LoadError};
