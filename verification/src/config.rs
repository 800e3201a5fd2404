//! The settings that the planner runs with.

use vstd::prelude::*;

verus! {

/// All settings.
#[derive(Debug)]
pub struct Config {
    pub todos: Todos,
    pub manual_stats: ManualStats,
}

/// Settings of the backlog.
#[derive(Debug)]
pub struct Todos {
    /// The directory that holds the task files.
    pub path: String,
    /// How many tasks a shortlist holds at most.
    pub n_tasks_to_show: usize,
}

/// Settings of the daily statistics.
#[derive(Debug)]
pub struct ManualStats {
    /// The directory that holds the statistics.
    pub path: String,
}

} // verus!
