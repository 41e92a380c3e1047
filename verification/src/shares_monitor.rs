//! Batched share telemetry. This variant of the share accumulator posts only
//! once a full batch is pending; the periodic loop outside the library asks
//! `should_send` and drains with `clear_pending_shares` after a successful
//! post.
use vstd::prelude::*;
use vstd::string::StringExecFns;

use crate::config::Configuration;
use crate::monitor::shares::ShareInfo;
use crate::monitor::spec_base_url;

pub use crate::monitor::shares::RejectionReason;

verus! {

/// How many shares accumulate before a batch is posted.
pub const BATCH_SIZE: u32 = 20;

/// Where this accumulator posts its batches.
pub fn monitoring_server_url(c: &Configuration) -> (r: String)
    ensures
        r@ == spec_base_url(c) + "/api/share/save"@,
{
    String::from_str(crate::monitor::base_url(c)).concat("/api/share/save")
}

/// Accumulates share records and releases them in batches.
pub struct SharesMonitor {
    pending_shares: Vec<ShareInfo>,
    batch_size: u32,
}

impl SharesMonitor {
    pub fn new() -> (r: Self)
        ensures
            r.pending().len() == 0,
            r.batch() == BATCH_SIZE,
    {
        SharesMonitor { pending_shares: Vec::new(), batch_size: BATCH_SIZE }
    }

    /// The records waiting to be posted, oldest first.
    pub closed spec fn pending(&self) -> Seq<ShareInfo> {
        self.pending_shares@
    }

    /// The configured batch size.
    pub closed spec fn batch(&self) -> u32 {
        self.batch_size
    }

    /// Appends a share to the pending list.
    pub fn insert_share(&mut self, share: ShareInfo)
        ensures
            final(self).pending() == old(self).pending().push(share),
            final(self).batch() == old(self).batch(),
    {
        self.pending_shares.push(share);
    }

    /// The shares the next post would carry.
    pub fn get_pending_shares(&self) -> (r: &Vec<ShareInfo>)
        ensures
            r@ == self.pending(),
    {
        &self.pending_shares
    }

    /// Empties the pending list after a successful post.
    pub fn clear_pending_shares(&mut self)
        ensures
            final(self).pending().len() == 0,
            final(self).batch() == old(self).batch(),
    {
        self.pending_shares.clear();
    }

    /// Whether the posting loop should post now: only once a full batch is
    /// pending.
    pub fn should_send(&self) -> (r: bool)
        ensures
            r == (self.pending().len() > 0 && self.pending().len() >= self.batch()),
    {
        self.pending_shares.len() > 0 && self.pending_shares.len() >= self.batch_size as usize
    }
}

} // verus!
