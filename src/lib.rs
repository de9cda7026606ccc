//! Line-oriented text search: split a text into lines and keep those that
//! contain a query, either exactly or after lowercasing both sides.
use vstd::prelude::*;

pub mod config;
pub mod laws;
pub mod lines;
pub mod search;

pub use config::{Config, ConfigError};
pub use search::{contains, search_case_insensitive, search_case_sensitive};

verus! {

} // verus!
