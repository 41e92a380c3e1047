//! The per-miner session: its state machine, the window of recently
//! announced jobs, the authorization set, the version-rolling negotiation
//! and the translation of submitted shares. All I/O stays outside; the
//! session decides and the wire loops carry.
use vstd::prelude::*;

use crate::monitor::shares::RejectionReason;
use crate::monitor::worker_activity::{WorkerActivity, WorkerActivityType};
use crate::shared::utils::rolling_params;
use crate::translator::downstream::diff_management::{
    count_in_window,
    shares_in_window,
    spec_adjusted,
    spec_measured_rate,
    update_difficulty,
};
use crate::translator::downstream::intermediate_downstream::{
    render_set_difficulty,
    render_set_difficulty_line,
};

verus! {

/// How many recently announced jobs a session can resolve submits against.
pub const RECENT_JOBS_CAPACITY: usize = 8;

/// The job the bridge most recently announced: what a newly admitted
/// session starts on, registered in its window when the miner configures or
/// authorizes.
#[derive(Debug, Clone, Copy, PartialEq, Eq, Structural)]
pub struct CachedJob {
    pub v1_id: u32,
    pub v2_job_id: u32,
    pub version: u32,
}

/// One job the session announced to its miner: the miner-facing identifier,
/// the upstream job it stands for, the job's version word and the rolling
/// mask granted when it was announced.
#[derive(Clone, Copy)]
pub struct JobEntry {
    pub v1_id: u32,
    pub v2_job_id: u32,
    pub version: u32,
    pub version_rolling_mask: Option<u32>,
}

/// The bounded insertion-ordered window of announced jobs. A submit can be
/// resolved against a job exactly while it stays in the window; once grown
/// past capacity the oldest entries are evicted and stay unresolvable.
pub struct RecentJobs {
    jobs: Vec<JobEntry>,
}

/// Position of the first entry with the given miner-facing id, or the
/// length when there is none.
pub open spec fn find_id(entries: Seq<JobEntry>, v1_id: u32) -> int
    decreases entries.len(),
{
    if entries.len() == 0 {
        0
    } else if entries[0].v1_id == v1_id {
        0
    } else {
        1 + find_id(entries.skip(1), v1_id)
    }
}

/// Whether the window holds an entry for the given id.
pub open spec fn holds_id(entries: Seq<JobEntry>, v1_id: u32) -> bool {
    exists|i: int| 0 <= i < entries.len() && (#[trigger] entries[i]).v1_id == v1_id
}

impl RecentJobs {
    /// The entries in insertion order, oldest first.
    pub closed spec fn entries(&self) -> Seq<JobEntry> {
        self.jobs@
    }

    /// The window never outgrows its capacity.
    pub open spec fn wf(&self) -> bool {
        self.entries().len() <= RECENT_JOBS_CAPACITY
    }

    pub fn new() -> (r: Self)
        ensures
            r.entries().len() == 0,
            r.wf(),
    {
        RecentJobs { jobs: Vec::new() }
    }

    /// Announces a job: appends it, evicting the oldest entry when the
    /// window is full.
    pub fn add_job(&mut self, entry: JobEntry)
        requires
            old(self).wf(),
        ensures
            final(self).wf(),
            final(self).entries() == if old(self).entries().len() < RECENT_JOBS_CAPACITY {
                old(self).entries().push(entry)
            } else {
                old(self).entries().skip(1).push(entry)
            },
    {
        if self.jobs.len() >= RECENT_JOBS_CAPACITY {
            let _evicted = self.jobs.remove(0);
            proof {
                assert(old(self).entries().remove(0) =~= old(self).entries().skip(1));
            }
        }
        self.jobs.push(entry);
    }

    /// Resolves a miner-facing job id back to its entry: the first entry
    /// carrying the id, and `None` exactly when no entry in the window
    /// carries it — in particular for every id already evicted.
    pub fn find(&self, v1_id: u32) -> (r: Option<JobEntry>)
        ensures
            match r {
                Some(e) => holds_id(self.entries(), v1_id) && e.v1_id == v1_id
                    && 0 <= find_id(self.entries(), v1_id) < self.entries().len() && e
                    == self.entries()[find_id(self.entries(), v1_id)],
                None => !holds_id(self.entries(), v1_id),
            },
    {
        let n = self.jobs.len();
        let mut i: usize = 0;
        while i < n
            invariant
                n == self.entries().len(),
                i <= n,
                forall|j: int| 0 <= j < i ==> (#[trigger] self.entries()[j]).v1_id != v1_id,
            decreases n - i,
        {
            if self.jobs[i].v1_id == v1_id {
                proof {
                    lemma_find_id_at(self.entries(), v1_id, i as int);
                }
                return Some(self.jobs[i]);
            }
            i = i + 1;
        }
        proof {
            assert forall|j: int| 0 <= j < n implies (#[trigger] self.entries()[j]).v1_id != v1_id
                by {}
        }
        None
    }
}

proof fn lemma_find_id_at(entries: Seq<JobEntry>, v1_id: u32, k: int)
    requires
        0 <= k < entries.len(),
        entries[k].v1_id == v1_id,
        forall|j: int| 0 <= j < k ==> (#[trigger] entries[j]).v1_id != v1_id,
    ensures
        find_id(entries, v1_id) == k,
        holds_id(entries, v1_id),
    decreases k,
{
    if k > 0 {
        assert(entries[0].v1_id != v1_id);
        assert forall|j: int| 0 <= j < k - 1 implies (#[trigger] entries.skip(1)[j]).v1_id != v1_id
            by {
            assert(entries.skip(1)[j] == entries[j + 1]);
        }
        assert(entries.skip(1)[k - 1] == entries[k]);
        lemma_find_id_at(entries.skip(1), v1_id, k - 1);
    }
}

/// Where a session stands in the V1 handshake.
#[derive(Debug, Clone, Copy, PartialEq, Eq, Structural)]
pub enum SessionState {
    New,
    Configured,
    Subscribed,
    Active,
    Closed,
}

/// A share translated for the upstream channel: the version word after
/// rolling, and the full extranonce, proxy prefix first.
pub struct TranslatedShare {
    pub job_id_v2: u32,
    pub version: u32,
    pub extranonce: Vec<u8>,
    pub ntime: u32,
    pub nonce: u32,
}

/// The version word a submit stands for: the submitted bits replace the
/// job's bits inside the granted mask and nowhere else.
pub open spec fn rolled_version(job_version: u32, mask: Option<u32>, bits: Option<u32>) -> u32 {
    match (mask, bits) {
        (Some(m), Some(b)) => (job_version & !m) | (b & m),
        _ => job_version,
    }
}

/// One miner's session.
pub struct Downstream {
    pub channel_id: u32,
    pub state: SessionState,
    pub user_agent: Option<String>,
    pub authorized_names: Vec<String>,
    pub version_rolling_mask: Option<u32>,
    pub version_rolling_min_bit: Option<u32>,
    pub extranonce1: Vec<u8>,
    pub extranonce2_len: usize,
    pub current_difficulty: u64,
    pub first_job: Option<CachedJob>,
    pub recent_jobs: RecentJobs,
    pub submission_times: Vec<u64>,
}

/// The window after the cached starting job is registered under the mask in
/// force: added once, unless the window already resolves its id.
pub open spec fn register_first_job(
    entries: Seq<JobEntry>,
    first_job: Option<CachedJob>,
    mask: Option<u32>,
) -> Seq<JobEntry> {
    match first_job {
        None => entries,
        Some(j) => {
            if holds_id(entries, j.v1_id) {
                entries
            } else {
                let entry = JobEntry {
                    v1_id: j.v1_id,
                    v2_job_id: j.v2_job_id,
                    version: j.version,
                    version_rolling_mask: mask,
                };
                if entries.len() < RECENT_JOBS_CAPACITY {
                    entries.push(entry)
                } else {
                    entries.skip(1).push(entry)
                }
            }
        },
    }
}

/// Whether a name is in the session's authorized set.
pub open spec fn name_authorized(names: Seq<String>, name: Seq<char>) -> bool {
    exists|i: int| 0 <= i < names.len() && (#[trigger] names[i])@ == name
}

impl Downstream {
    pub open spec fn wf(&self) -> bool {
        self.recent_jobs.wf()
    }

    /// A fresh session on an opened channel: nothing negotiated, nobody
    /// authorized, no jobs announced.
    pub fn new_downstream(
        channel_id: u32,
        extranonce1: Vec<u8>,
        extranonce2_len: usize,
        initial_difficulty: u64,
        first_job: Option<CachedJob>,
    ) -> (r: Self)
        ensures
            r.channel_id == channel_id,
            r.state is New,
            r.user_agent is None,
            r.authorized_names@.len() == 0,
            r.version_rolling_mask is None,
            r.version_rolling_min_bit is None,
            r.extranonce1 == extranonce1,
            r.extranonce2_len == extranonce2_len,
            r.current_difficulty == initial_difficulty,
            r.first_job == first_job,
            r.recent_jobs.entries().len() == 0,
            r.submission_times@.len() == 0,
            r.wf(),
    {
        Downstream {
            channel_id,
            state: SessionState::New,
            user_agent: None,
            authorized_names: Vec::new(),
            version_rolling_mask: None,
            version_rolling_min_bit: None,
            extranonce1,
            extranonce2_len,
            current_difficulty: initial_difficulty,
            first_job,
            recent_jobs: RecentJobs::new(),
            submission_times: Vec::new(),
        }
    }

    /// Registers the cached starting job in the window under the mask in
    /// force, once.
    fn register_first_job(&mut self)
        requires
            old(self).wf(),
        ensures
            final(self).wf(),
            final(self).recent_jobs.entries() == register_first_job(
                old(self).recent_jobs.entries(),
                old(self).first_job,
                old(self).version_rolling_mask,
            ),
            *final(self) == (Downstream { recent_jobs: final(self).recent_jobs, ..*old(self) }),
    {
        match self.first_job {
            Some(j) => {
                match self.recent_jobs.find(j.v1_id) {
                    Some(_) => {},
                    None => {
                        self.recent_jobs.add_job(
                            JobEntry {
                                v1_id: j.v1_id,
                                v2_job_id: j.v2_job_id,
                                version: j.version,
                                version_rolling_mask: self.version_rolling_mask,
                            },
                        );
                    },
                }
            },
            None => {},
        }
    }

    /// Handles `mining.configure`: the granted mask is the requested one
    /// narrowed to the bits the proxy exposes (an absent request grants no
    /// bits), the granted minimum bit count is the requested one (zero when
    /// absent), and both are stored on the session. The cached starting job
    /// is registered in the recent-jobs window under the granted mask, so
    /// the miner can submit against it at once. Allowed in any state before
    /// activation; it moves a fresh session to `Configured`.
    pub fn handle_configure(&mut self, requested_mask: Option<u32>, requested_min_bits: Option<u32>)
        -> (r: (u32, u32))
        requires
            old(self).wf(),
        ensures
            final(self).wf(),
            r.0 == (match requested_mask {
                Some(m) => m & crate::VERSION_ROLLING_MASK,
                None => 0u32,
            }),
            r.1 == (match requested_min_bits {
                Some(b) => b,
                None => 0u32,
            }),
            final(self).version_rolling_mask == Some(r.0),
            final(self).version_rolling_min_bit == Some(r.1),
            final(self).state == (if old(self).state is New {
                SessionState::Configured
            } else {
                old(self).state
            }),
            final(self).authorized_names == old(self).authorized_names,
            final(self).recent_jobs.entries() == register_first_job(
                old(self).recent_jobs.entries(),
                old(self).first_job,
                Some(r.0),
            ),
            final(self).first_job == old(self).first_job,
            final(self).current_difficulty == old(self).current_difficulty,
            final(self).extranonce1 == old(self).extranonce1,
            final(self).extranonce2_len == old(self).extranonce2_len,
            final(self).channel_id == old(self).channel_id,
    {
        let granted = rolling_params(requested_mask, requested_min_bits);
        self.version_rolling_mask = Some(granted.0);
        self.version_rolling_min_bit = Some(granted.1);
        self.register_first_job();
        if matches!(self.state, SessionState::New) {
            self.state = SessionState::Configured;
        }
        granted
    }

    /// Handles `mining.subscribe`: records the miner's user agent and moves
    /// the session to `Subscribed`. The reply's subscription tuples and the
    /// extranonce pair come from the session's own fields.
    pub fn handle_subscribe(&mut self, agent: String)
        requires
            old(self).wf(),
        ensures
            final(self).wf(),
            final(self).user_agent == Some(agent),
            final(self).version_rolling_min_bit == old(self).version_rolling_min_bit,
            final(self).state == (if old(self).state is New || old(self).state is Configured {
                SessionState::Subscribed
            } else {
                old(self).state
            }),
            final(self).authorized_names == old(self).authorized_names,
            final(self).recent_jobs.entries() == old(self).recent_jobs.entries(),
            final(self).version_rolling_mask == old(self).version_rolling_mask,
            final(self).current_difficulty == old(self).current_difficulty,
            final(self).extranonce1 == old(self).extranonce1,
            final(self).extranonce2_len == old(self).extranonce2_len,
            final(self).channel_id == old(self).channel_id,
    {
        self.user_agent = Some(agent);
        if matches!(self.state, SessionState::New) || matches!(self.state, SessionState::Configured) {
            self.state = SessionState::Subscribed;
        }
    }

    /// Whether this name has authorized before.
    pub fn is_authorized(&self, name: &String) -> (r: bool)
        ensures
            r == name_authorized(self.authorized_names@, name@),
    {
        let n = self.authorized_names.len();
        let mut i: usize = 0;
        while i < n
            invariant
                n == self.authorized_names@.len(),
                i <= n,
                forall|j: int| 0 <= j < i ==> (#[trigger] self.authorized_names@[j])@ != name@,
            decreases n - i,
        {
            if string_views_equal(&self.authorized_names[i], name) {
                return true;
            }
            i = i + 1;
        }
        false
    }

    /// Handles `mining.authorize`. The first authorization of a name
    /// succeeds, adds the name, activates the session and fires exactly one
    /// Connected event; any repeat of the same name returns false and adds
    /// nothing. Either way the cached starting job is registered in the
    /// window under the mask in force, so the job pushed after authorize
    /// can be submitted against.
    pub fn handle_authorize(&mut self, name: String) -> (r: (bool, Option<WorkerActivity>))
        requires
            old(self).wf(),
        ensures
            final(self).wf(),
            r.0 == !name_authorized(old(self).authorized_names@, name@),
            r.0 ==> final(self).authorized_names@ == old(self).authorized_names@.push(name)
                && final(self).state is Active && (r.1 matches Some(ev) && ev.worker_name@ == name@
                && ev.activity is Connected),
            !r.0 ==> final(self).authorized_names == old(self).authorized_names && final(self).state
                == old(self).state && r.1 is None,
            final(self).recent_jobs.entries() == register_first_job(
                old(self).recent_jobs.entries(),
                old(self).first_job,
                old(self).version_rolling_mask,
            ),
            final(self).first_job == old(self).first_job,
            final(self).version_rolling_mask == old(self).version_rolling_mask,
            final(self).current_difficulty == old(self).current_difficulty,
            final(self).extranonce1 == old(self).extranonce1,
            final(self).extranonce2_len == old(self).extranonce2_len,
            final(self).channel_id == old(self).channel_id,
            final(self).user_agent == old(self).user_agent,
            final(self).version_rolling_min_bit == old(self).version_rolling_min_bit,
    {
        self.register_first_job();
        if self.is_authorized(&name) {
            return (false, None);
        }
        let agent = match &self.user_agent {
            Some(a) => clone_string(a),
            None => String::new(),
        };
        let event = WorkerActivity::new(agent, clone_string(&name), WorkerActivityType::Connected);
        self.authorized_names.push(name);
        self.state = SessionState::Active;
        (true, Some(event))
    }

    /// Handles `mining.extranonce.subscribe`: acknowledged silently, no
    /// session change.
    pub fn handle_extranonce_subscribe(&self)
    {
    }

    /// Announces a job to this miner: remembers it in the recent-jobs
    /// window under its miner-facing id, together with the mask in force.
    pub fn add_job(&mut self, v1_id: u32, v2_job_id: u32, version: u32)
        requires
            old(self).wf(),
        ensures
            final(self).wf(),
            final(self).recent_jobs.entries() == (if old(self).recent_jobs.entries().len()
                < RECENT_JOBS_CAPACITY {
                old(self).recent_jobs.entries().push(
                    JobEntry {
                        v1_id,
                        v2_job_id,
                        version,
                        version_rolling_mask: old(self).version_rolling_mask,
                    },
                )
            } else {
                old(self).recent_jobs.entries().skip(1).push(
                    JobEntry {
                        v1_id,
                        v2_job_id,
                        version,
                        version_rolling_mask: old(self).version_rolling_mask,
                    },
                )
            }),
            final(self).authorized_names == old(self).authorized_names,
            final(self).state == old(self).state,
            final(self).version_rolling_mask == old(self).version_rolling_mask,
            final(self).current_difficulty == old(self).current_difficulty,
    {
        let entry = JobEntry {
            v1_id,
            v2_job_id,
            version,
            version_rolling_mask: self.version_rolling_mask,
        };
        self.recent_jobs.add_job(entry);
    }

    /// Handles `mining.submit`: resolves the announced job, checks the
    /// extranonce width, rolls the version and assembles the upstream
    /// share. Errors name exactly what failed: an unknown id is
    /// `JobIdNotFound`, a second extranonce of the wrong width is
    /// `InvalidShare`. The submission timestamp feeds vardiff either way.
    pub fn handle_submit(
        &mut self,
        v1_job_id: u32,
        extranonce2: Vec<u8>,
        ntime: u32,
        nonce: u32,
        version_bits: Option<u32>,
        now_ms: u64,
    ) -> (r: Result<TranslatedShare, RejectionReason>)
        requires
            old(self).wf(),
            old(self).extranonce1@.len() + old(self).extranonce2_len <= usize::MAX,
        ensures
            final(self).wf(),
            final(self).submission_times@ == old(self).submission_times@.push(now_ms),
            ({
                let entries = old(self).recent_jobs.entries();
                match r {
                    Ok(share) => {
                        &&& holds_id(entries, v1_job_id)
                        &&& extranonce2@.len() == old(self).extranonce2_len
                        &&& ({
                            let e = entries[find_id(entries, v1_job_id)];
                            &&& share.job_id_v2 == e.v2_job_id
                            &&& share.version == rolled_version(
                                e.version,
                                e.version_rolling_mask,
                                version_bits,
                            )
                        })
                        &&& share.extranonce@ == old(self).extranonce1@ + extranonce2@
                        &&& share.ntime == ntime
                        &&& share.nonce == nonce
                    },
                    Err(RejectionReason::JobIdNotFound) => !holds_id(entries, v1_job_id),
                    Err(RejectionReason::InvalidShare) => holds_id(entries, v1_job_id)
                        && extranonce2@.len() != old(self).extranonce2_len,
                    Err(_) => false,
                }
            }),
            final(self).recent_jobs.entries() == old(self).recent_jobs.entries(),
            final(self).authorized_names == old(self).authorized_names,
            final(self).state == old(self).state,
            final(self).current_difficulty == old(self).current_difficulty,
            final(self).extranonce1 == old(self).extranonce1,
            final(self).extranonce2_len == old(self).extranonce2_len,
            final(self).version_rolling_min_bit == old(self).version_rolling_min_bit,
    {
        self.submission_times.push(now_ms);
        let entry = match self.recent_jobs.find(v1_job_id) {
            Some(e) => e,
            None => {
                return Err(RejectionReason::JobIdNotFound);
            },
        };
        if extranonce2.len() != self.extranonce2_len {
            return Err(RejectionReason::InvalidShare);
        }
        let version = match (entry.version_rolling_mask, version_bits) {
            (Some(m), Some(b)) => (entry.version & !m) | (b & m),
            _ => entry.version,
        };
        let mut extranonce: Vec<u8> = Vec::new();
        let mut i: usize = 0;
        let e1_len = self.extranonce1.len();
        while i < e1_len
            invariant
                e1_len == self.extranonce1@.len(),
                i <= e1_len,
                extranonce@ == self.extranonce1@.take(i as int),
            decreases e1_len - i,
        {
            extranonce.push(self.extranonce1[i]);
            proof {
                assert(self.extranonce1@.take(i + 1) =~= self.extranonce1@.take(i as int).push(
                    self.extranonce1@[i as int],
                ));
            }
            i = i + 1;
        }
        proof {
            assert(self.extranonce1@.take(e1_len as int) =~= self.extranonce1@);
        }
        let mut j: usize = 0;
        let e2_len = extranonce2.len();
        while j < e2_len
            invariant
                e2_len == extranonce2@.len(),
                j <= e2_len,
                extranonce@ == self.extranonce1@ + extranonce2@.take(j as int),
            decreases e2_len - j,
        {
            extranonce.push(extranonce2[j]);
            proof {
                assert((self.extranonce1@ + extranonce2@.take(j as int)).push(
                    extranonce2@[j as int],
                ) =~= self.extranonce1@ + extranonce2@.take(j + 1));
            }
            j = j + 1;
        }
        proof {
            assert(extranonce2@.take(e2_len as int) =~= extranonce2@);
        }
        Ok(TranslatedShare { job_id_v2: entry.v2_job_id, version, extranonce, ntime, nonce })
    }

    pub fn extranonce1(&self) -> (r: &Vec<u8>)
        ensures
            r == &self.extranonce1,
    {
        &self.extranonce1
    }

    pub fn extranonce2_size(&self) -> (r: usize)
        ensures
            r == self.extranonce2_len,
    {
        self.extranonce2_len
    }

    pub fn version_rolling_mask(&self) -> (r: Option<u32>)
        ensures
            r == self.version_rolling_mask,
    {
        self.version_rolling_mask
    }

    pub fn set_version_rolling_mask(&mut self, mask: Option<u32>)
        ensures
            final(self).version_rolling_mask == mask,
            *final(self) == (Downstream { version_rolling_mask: mask, ..*old(self) }),
    {
        self.version_rolling_mask = mask;
    }

    pub fn set_version_rolling_min_bit(&mut self, bits: Option<u32>)
        ensures
            *final(self) == (Downstream { version_rolling_min_bit: bits, ..*old(self) }),
    {
        self.version_rolling_min_bit = bits;
    }

    /// One vardiff tick: measures the cadence over the window ending now,
    /// asks the controller for a proposal inside the channel bounds, and on
    /// a change applies it, resets the timestamp ring and hands back the
    /// difficulty line to push to the miner. Without a change, nothing
    /// moves.
    pub fn vardiff_tick(
        &mut self,
        now_ms: u64,
        window_ms: u64,
        target_spm: u64,
        d_min: u64,
        d_max: u64,
    ) -> (r: Option<(u64, String)>)
        requires
            old(self).wf(),
            old(self).submission_times@.len() <= 0x1_0000_0000,
            window_ms >= 1,
            target_spm >= 1,
            1 <= d_min <= d_max,
        ensures
            final(self).wf(),
            ({
                let shares = count_in_window(
                    old(self).submission_times@,
                    now_ms as nat,
                    window_ms as nat,
                );
                let proposal = spec_adjusted(
                    old(self).current_difficulty as nat,
                    spec_measured_rate(shares, window_ms as nat),
                    target_spm as nat,
                    d_min as nat,
                    d_max as nat,
                );
                match r {
                    Some((v, line)) => proposal == Some(v) && d_min <= v <= d_max
                        && final(self).current_difficulty == v
                        && final(self).submission_times@.len() == 0 && line@
                        == render_set_difficulty(v),
                    None => proposal is None && *final(self) == *old(self),
                }
            }),
    {
        let shares = shares_in_window(&self.submission_times, now_ms, window_ms);
        match update_difficulty(
            self.current_difficulty,
            shares,
            window_ms,
            target_spm,
            d_min,
            d_max,
        ) {
            Some(v) => {
                self.current_difficulty = v;
                self.submission_times.clear();
                Some((v, render_set_difficulty_line(v)))
            },
            None => None,
        }
    }

    /// Marks the session closed; a closed session handles nothing further.
    pub fn close(&mut self)
        ensures
            *final(self) == (Downstream { state: SessionState::Closed, ..*old(self) }),
    {
        self.state = SessionState::Closed;
    }
}

/// Whether two strings hold the same characters.
fn string_views_equal(a: &String, b: &String) -> (r: bool)
    ensures
        r == (a@ == b@),
{
    let x = a.as_str();
    let y = b.as_str();
    let n = x.unicode_len();
    let m = y.unicode_len();
    if n != m {
        return false;
    }
    let mut i: usize = 0;
    while i < n
        invariant
            n == x@.len() == y@.len(),
            x@ == a@,
            y@ == b@,
            i <= n,
            forall|j: int| 0 <= j < i ==> #[trigger] x@[j] == y@[j],
        decreases n - i,
    {
        if x.get_char(i) != y.get_char(i) {
            return false;
        }
        i = i + 1;
    }
    proof {
        assert(a@ =~= b@);
    }
    true
}

/// An explicit copy of a string.
fn clone_string(s: &String) -> (r: String)
    ensures
        r@ == s@,
{
    s.clone()
}

/// A miner-facing job id resolves only while the window holds it: once the
/// window is full and the only entry carrying the id is evicted, no later
/// lookup can succeed, whatever job is announced next.
pub proof fn lemma_no_resolution_after_eviction(
    entries: Seq<JobEntry>,
    entry: JobEntry,
    v1_id: u32,
)
    requires
        entries.len() > 0,
        forall|j: int| 1 <= j < entries.len() ==> (#[trigger] entries[j]).v1_id != v1_id,
        entry.v1_id != v1_id,
    ensures
        !holds_id(entries.skip(1).push(entry), v1_id),
{
    let after = entries.skip(1).push(entry);
    assert forall|i: int| 0 <= i < after.len() implies (#[trigger] after[i]).v1_id != v1_id by {
        if i < after.len() - 1 {
            assert(after[i] == entries[i + 1]);
        } else {
            assert(after[i] == entry);
        }
    }
}

/// Of two successive authorizations of one name, only the first can
/// succeed: once the name stands in the authorized set, membership holds
/// and the repeat is refused by `handle_authorize`'s contract.
pub proof fn lemma_repeat_authorize(names: Seq<String>, name: String)
    ensures
        name_authorized(names.push(name), name@),
{
    let w = names.push(name);
    assert(w[names.len() as int]@ == name@);
}

} // verus!
