use vstd::prelude::*;

pub mod config;
pub mod laws;
pub mod search;
pub mod text;

pub use config::{matches_for, Config, ConfigError};
pub use search::{search, search_case_insensitive};
pub use text::contains_str;

verus! {

} // verus!
