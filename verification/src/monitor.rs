//! Telemetry endpoints. The proxy reports shares, worker activity and error
//! logs to a monitoring service; which service depends on the configured
//! environment. Only the endpoint selection lives here — the HTTP calls are
//! fire-and-forget collaborators outside the library.
use vstd::prelude::*;
use vstd::string::StringExecFns;

use crate::config::Configuration;

pub mod logs;
pub mod shares;
pub mod worker_activity;

verus! {

/// The base URL that the configured environment reports against.
pub open spec fn spec_base_url(c: &Configuration) -> Seq<char> {
    if c.staging {
        crate::STAGING_URL@
    } else if c.local {
        crate::LOCAL_URL@
    } else {
        crate::PRODUCTION_URL@
    }
}

/// The monitoring base URL for the configured environment.
pub fn base_url(c: &Configuration) -> (r: &'static str)
    ensures
        r@ == spec_base_url(c),
{
    if c.staging() {
        crate::STAGING_URL
    } else if c.local() {
        crate::LOCAL_URL
    } else {
        crate::PRODUCTION_URL
    }
}

/// Where error logs are posted.
pub fn proxy_log_server_endpoint(c: &Configuration) -> (r: String)
    ensures
        r@ == spec_base_url(c) + "/api/proxy/logs"@,
{
    String::from_str(base_url(c)).concat("/api/proxy/logs")
}

/// Where share batches are posted.
pub fn shares_server_endpoint(c: &Configuration) -> (r: String)
    ensures
        r@ == spec_base_url(c) + "/api/share/save"@,
{
    String::from_str(base_url(c)).concat("/api/share/save")
}

/// Where worker connect/disconnect events are posted.
pub fn worker_activity_server_endpoint(c: &Configuration) -> (r: String)
    ensures
        r@ == spec_base_url(c) + "/api/worker/activity"@,
{
    String::from_str(base_url(c)).concat("/api/worker/activity")
}

/// Where pool addresses are looked up at start-up.
pub fn pool_lookup_endpoint(c: &Configuration) -> (r: String)
    ensures
        r@ == spec_base_url(c) + "/api/pool/urls"@,
{
    String::from_str(base_url(c)).concat("/api/pool/urls")
}

} // verus!
