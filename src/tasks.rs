//! Scheduled tasks.

use vstd::prelude::*;

verus! {

/// A task for the scheduler.
#[derive(Debug, Clone)]
pub struct Task {
    /// Name of the task, for logging.
    pub name: String,
    /// Cron expression of its schedule.
    pub cron: String,
    /// Whether the task is removed after its first run.
    pub run_once: bool,
}

impl Task {
    pub fn new(name: &str, cron: &str, run_once: bool) -> (r: Self)
        ensures
            r.name@ == name@,
            r.cron@ == cron@,
            r.run_once == run_once,
    {
        Task { name: String::from_str(name), cron: String::from_str(cron), run_once }
    }
}

} // verus!
