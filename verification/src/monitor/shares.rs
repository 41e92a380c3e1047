//! Share telemetry: the record kept for every submitted share and the
//! batching state that accumulates them between posts to the monitoring
//! server. The periodic posting loop lives outside the library and only
//! decides through `get_next_shares` / `clear_next_shares`.
use vstd::prelude::*;

verus! {

/// Why a share was rejected; `None` in a `ShareInfo` means it was accepted.
#[derive(Debug, Clone, Copy, PartialEq, Eq, Structural)]
pub enum RejectionReason {
    JobIdNotFound,
    InvalidShare,
    InvalidJobIdFormat,
    DifficultyMismatch,
}

impl RejectionReason {
    /// The human-readable description of the rejection.
    pub fn message(&self) -> (r: &'static str)
        ensures
            *self is JobIdNotFound ==> r@ == "Job ID not found"@,
            *self is InvalidShare ==> r@ == "Invalid share"@,
            *self is InvalidJobIdFormat ==> r@ == "Invalid job ID format"@,
            *self is DifficultyMismatch ==> r@ == "Difficulty mismatch"@,
    {
        match self {
            RejectionReason::JobIdNotFound => "Job ID not found",
            RejectionReason::InvalidShare => "Invalid share",
            RejectionReason::InvalidJobIdFormat => "Invalid job ID format",
            RejectionReason::DifficultyMismatch => "Difficulty mismatch",
        }
    }
}

impl RejectionReason {
    /// The V1 error code reported with the rejection: a stale job, a
    /// share under target, or a malformed share.
    pub fn error_code(&self) -> (r: u64)
        ensures
            *self is JobIdNotFound ==> r == 21,
            *self is DifficultyMismatch ==> r == 23,
            *self is InvalidShare ==> r == 20,
            *self is InvalidJobIdFormat ==> r == 20,
    {
        match self {
            RejectionReason::JobIdNotFound => 21,
            RejectionReason::DifficultyMismatch => 23,
            RejectionReason::InvalidShare => 20,
            RejectionReason::InvalidJobIdFormat => 20,
        }
    }
}

/// One submitted share as reported to the monitoring server. The difficulty
/// is the per-miner share difficulty at submission time.
pub struct ShareInfo {
    pub worker_name: String,
    pub difficulty: Option<u64>,
    pub job_id: i64,
    pub rejection_reason: Option<RejectionReason>,
    pub timestamp: u64,
}

/// Relies on std::time::SystemTime::now and duration_since(UNIX_EPOCH):
/// seconds since the Unix epoch, or zero on a clock that reads before it.
#[verifier::external_body]
pub(crate) fn unix_now() -> u64 {
    match std::time::SystemTime::now().duration_since(std::time::UNIX_EPOCH) {
        Ok(d) => d.as_secs(),
        Err(_) => 0,
    }
}

impl ShareInfo {
    /// Records a share with the current wall-clock time.
    pub fn new(
        worker_name: String,
        difficulty: Option<u64>,
        job_id: i64,
        rejection_reason: Option<RejectionReason>,
    ) -> (r: Self)
        ensures
            r.worker_name == worker_name,
            r.difficulty == difficulty,
            r.job_id == job_id,
            r.rejection_reason == rejection_reason,
    {
        ShareInfo { worker_name, difficulty, job_id, rejection_reason, timestamp: unix_now() }
    }
}

/// Accumulates share records until the posting loop drains them.
pub struct SharesMonitor {
    shares: Vec<ShareInfo>,
}

impl SharesMonitor {
    pub fn new() -> (r: Self)
        ensures
            r.pending().len() == 0,
    {
        SharesMonitor { shares: Vec::new() }
    }

    /// The records waiting to be posted, oldest first.
    pub closed spec fn pending(&self) -> Seq<ShareInfo> {
        self.shares@
    }

    /// Appends a share to the pending list.
    pub fn insert_share(&mut self, share: ShareInfo)
        ensures
            final(self).pending() == old(self).pending().push(share),
    {
        self.shares.push(share);
    }

    /// The shares the next post should carry.
    pub fn get_next_shares(&self) -> (r: &Vec<ShareInfo>)
        ensures
            r@ == self.pending(),
    {
        &self.shares
    }

    /// Empties the pending list after a successful post.
    pub fn clear_next_shares(&mut self)
        ensures
            final(self).pending().len() == 0,
    {
        self.shares.clear();
    }

    /// Whether the posting loop should post now: it posts whenever any
    /// share is pending.
    pub fn should_send(&self) -> (r: bool)
        ensures
            r == (self.pending().len() > 0),
    {
        self.shares.len() > 0
    }
}

} // verus!
