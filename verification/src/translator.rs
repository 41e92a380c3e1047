//! The translating core: per-miner downstream sessions and the bridge that
//! multiplexes them onto the upstream channel.

pub mod downstream;
pub mod proxy;
