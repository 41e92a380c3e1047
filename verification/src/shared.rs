//! Cross-cutting pieces: error kinds shared between subsystems and the task
//! handle bundle the supervisor works with.

pub mod error;
pub mod utils;
