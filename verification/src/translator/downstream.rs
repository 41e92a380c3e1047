//! Everything on the miner-facing side: the per-connection session state
//! machine, its recent-jobs window, per-miner difficulty adaptation, the
//! dispatch rules for inbound lines, and the supervisor that groups a
//! connection's tasks.

pub mod accept_connection;
pub mod diff_management;
pub mod downstream;
pub mod intermediate_downstream;
pub mod receive_from_downstream;
pub mod task_manager;
