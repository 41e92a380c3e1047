//! Translating proxy core: per-miner session management, V1/V2 message
//! translation, extranonce splitting, share-difficulty adaptation and a
//! lifecycle-aware task supervisor.
use vstd::prelude::*;

pub mod config;
pub mod hex;
pub mod textfmt;
pub mod monitor;
pub mod proxy_state;
pub mod shared;
pub mod shares_monitor;
pub mod translator;

verus! {

/// The largest rollable version-bit field the proxy exposes to miners.
/// Kept as a named constant so upstream negotiation can later narrow it.
pub const VERSION_ROLLING_MASK: u32 = 0x1FFFE000;

/// Base URL of the production monitoring and pool-lookup service.
pub const PRODUCTION_URL: &'static str = "https://api.production.invalid";

/// Base URL of the staging service.
pub const STAGING_URL: &'static str = "https://api.staging.invalid";

/// Base URL used when the proxy runs against a local test setup.
pub const LOCAL_URL: &'static str = "http://127.0.0.1:3000";

} // verus!
