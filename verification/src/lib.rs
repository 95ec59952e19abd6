//! Core of a single-user task tracker: the task model, an in-memory
//! persistence service implementing the storage contract, and the
//! interactive session state machine.

use vstd::prelude::*;

pub mod database;
pub mod models;
pub mod tui;

pub use models::Todo;

verus! {

/// Application configuration.
#[derive(Debug, Clone)]
pub struct Config {
    /// Database file path.
    pub database_url: String,
}

impl Default for Config {
    fn default() -> (r: Self)
        ensures
            r.database_url@ == "todo.db"@,
    {
        Config { database_url: "todo.db".to_owned() }
    }
}

} // verus!
