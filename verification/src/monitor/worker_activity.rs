//! Worker connect/disconnect events, posted fire-and-forget when a miner
//! authorizes or goes away.
use vstd::prelude::*;

verus! {

#[derive(Debug, Clone, Copy, PartialEq, Eq, Structural)]
pub enum WorkerActivityType {
    Connected,
    Disconnected,
}

/// One worker-activity event as the monitoring server receives it.
pub struct WorkerActivity {
    pub user_agent: String,
    pub worker_name: String,
    pub activity: WorkerActivityType,
}

impl WorkerActivity {
    pub fn new(user_agent: String, worker_name: String, activity: WorkerActivityType) -> (r: Self)
        ensures
            r.user_agent == user_agent,
            r.worker_name == worker_name,
            r.activity == activity,
    {
        WorkerActivity { user_agent, worker_name, activity }
    }
}

} // verus!
