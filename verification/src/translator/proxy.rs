//! The bridge between miners and the upstream channel.

pub mod bridge;
