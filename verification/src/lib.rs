//! Generates tmux session scripts from a small task description.
use vstd::prelude::*;

pub mod config;
pub mod env;
pub mod error;
pub mod order;
pub mod quote;
pub mod script;
pub mod session;
pub mod status;
pub mod text;
pub mod validate;

verus! {

} // verus!
