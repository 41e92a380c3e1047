//! The bridge between the miner sessions and the one upstream channel. It
//! owns the extranonce allocator, the channel table, the aggregate hashrate
//! and the miner-facing job identifiers; every session talks to the upstream
//! through it.
use vstd::prelude::*;

use crate::monitor::shares::RejectionReason;
use crate::translator::downstream::downstream::{CachedJob, TranslatedShare};
use crate::translator::downstream::intermediate_downstream::Notify;

verus! {

/// 256 to the power `k`: how many channel indexes `k` extranonce bytes can
/// tell apart.
pub open spec fn pow256(k: nat) -> int
    decreases k,
{
    if k == 0 {
        1
    } else {
        256 * pow256((k - 1) as nat)
    }
}

/// The big-endian `k`-byte rendering of `v`.
pub open spec fn be_bytes(v: nat, k: nat) -> Seq<u8>
    decreases k,
{
    if k == 0 {
        Seq::empty()
    } else {
        be_bytes(v / 256, (k - 1) as nat).push((v % 256) as u8)
    }
}

pub proof fn lemma_be_bytes_len(v: nat, k: nat)
    ensures
        be_bytes(v, k).len() == k,
    decreases k,
{
    if k > 0 {
        lemma_be_bytes_len(v / 256, (k - 1) as nat);
    }
}

/// Two indexes below `256^k` with the same `k`-byte rendering are equal:
/// distinct channel indexes get distinct extranonce bytes.
pub proof fn lemma_be_bytes_inj(v1: nat, v2: nat, k: nat)
    requires
        v1 < pow256(k),
        v2 < pow256(k),
        be_bytes(v1, k) == be_bytes(v2, k),
    ensures
        v1 == v2,
    decreases k,
{
    if k == 0 {
        assert(v1 == 0 && v2 == 0);
    } else {
        lemma_be_bytes_len(v1 / 256, (k - 1) as nat);
        lemma_be_bytes_len(v2 / 256, (k - 1) as nat);
        assert(be_bytes(v1, k).last() == (v1 % 256) as u8);
        assert(be_bytes(v2, k).last() == (v2 % 256) as u8);
        assert(be_bytes(v1, k).drop_last() =~= be_bytes(v1 / 256, (k - 1) as nat));
        assert(be_bytes(v2, k).drop_last() =~= be_bytes(v2 / 256, (k - 1) as nat));
        assert(v1 / 256 < pow256((k - 1) as nat)) by (nonlinear_arith)
            requires
                v1 < 256 * pow256((k - 1) as nat) && v1 >= 0,
        ;
        assert(v2 / 256 < pow256((k - 1) as nat)) by (nonlinear_arith)
            requires
                v2 < 256 * pow256((k - 1) as nat) && v2 >= 0,
        ;
        lemma_be_bytes_inj(v1 / 256, v2 / 256, (k - 1) as nat);
        assert(v1 % 256 == v2 % 256);
        assert(v1 == 256 * (v1 / 256) + v1 % 256);
        assert(v2 == 256 * (v2 / 256) + v2 % 256);
    }
}

/// One live channel: the miner it serves is the session holding this id.
pub struct ChannelInfo {
    pub channel_id: u32,
    pub extranonce1: Vec<u8>,
    pub ex2_len: usize,
    pub hashrate_contribution: u128,
}

/// Total hashrate contribution of a channel table.
pub open spec fn sum_hr(s: Seq<ChannelInfo>) -> int
    decreases s.len(),
{
    if s.len() == 0 {
        0
    } else {
        s[0].hashrate_contribution + sum_hr(s.skip(1))
    }
}

pub proof fn lemma_sum_hr_concat(a: Seq<ChannelInfo>, b: Seq<ChannelInfo>)
    ensures
        sum_hr(a + b) == sum_hr(a) + sum_hr(b),
    decreases a.len(),
{
    if a.len() == 0 {
        assert(a + b =~= b);
    } else {
        assert((a + b)[0] == a[0]);
        assert((a + b).skip(1) =~= a.skip(1) + b);
        lemma_sum_hr_concat(a.skip(1), b);
    }
}

pub proof fn lemma_sum_hr_nonneg(s: Seq<ChannelInfo>)
    ensures
        sum_hr(s) >= 0,
    decreases s.len(),
{
    if s.len() > 0 {
        lemma_sum_hr_nonneg(s.skip(1));
    }
}

/// Removing one channel takes exactly its contribution out of the total.
pub proof fn lemma_sum_hr_remove(s: Seq<ChannelInfo>, i: int)
    requires
        0 <= i < s.len(),
    ensures
        sum_hr(s.remove(i)) == sum_hr(s) - s[i].hashrate_contribution,
{
    assert(s =~= s.take(i) + (s.skip(i).take(1) + s.skip(i + 1)));
    assert(s.remove(i) =~= s.take(i) + s.skip(i + 1));
    lemma_sum_hr_concat(s.take(i), s.skip(i).take(1) + s.skip(i + 1));
    lemma_sum_hr_concat(s.skip(i).take(1), s.skip(i + 1));
    lemma_sum_hr_concat(s.take(i), s.skip(i + 1));
    let one = s.skip(i).take(1);
    assert(one.len() == 1);
    assert(one[0] == s[i]);
    assert(one.skip(1) =~= Seq::<ChannelInfo>::empty());
    assert(sum_hr(one.skip(1)) == 0);
    assert(sum_hr(one) == s[i].hashrate_contribution);
}

/// Whether some live channel carries the given id.
pub open spec fn uses_id(s: Seq<ChannelInfo>, id: u32) -> bool {
    exists|i: int| 0 <= i < s.len() && (#[trigger] s[i]).channel_id == id
}

/// What a new session gets from the bridge.
pub struct OpenedChannel {
    pub channel_id: u32,
    pub extranonce: Vec<u8>,
    pub extranonce2_len: usize,
    pub last_notify: Option<CachedJob>,
}

/// Why a connection could not be opened.
#[derive(Debug, Clone, Copy, PartialEq, Eq, Structural)]
pub enum BridgeError {
    /// Every channel index inside the granted extranonce space is live.
    NoExtranonceSpace,
    /// The upstream channel is not open or no job is cached yet.
    UpstreamNotReady,
    /// The aggregate hashrate cannot take this contribution.
    HashrateRejected,
}

/// What the bridge decides about one submitted share.
pub enum SubmitOutcome {
    /// Translated and queued for the upstream: the frame to send.
    ForwardedPending(SubmitSharesExtended),
    /// Refused here; the miner gets a failure with this reason.
    RejectedLocally(RejectionReason),
}

/// The upstream share frame.
pub struct SubmitSharesExtended {
    pub channel_id: u32,
    pub sequence_number: u32,
    pub job_id: u32,
    pub nonce: u32,
    pub ntime: u32,
    pub version: u32,
    pub extranonce: Vec<u8>,
}

/// One upstream extended job, as the typed upstream stream delivers it.
pub struct V2Job {
    pub job_id: u32,
    pub version: u32,
    pub coinbase1: Vec<u8>,
    pub coinbase2: Vec<u8>,
    pub merkle_branches: Vec<Vec<u8>>,
}

/// The latest prev-hash update from the upstream.
pub struct PrevHashUpdate {
    pub prev_hash: Vec<u8>,
    pub nbits: u32,
    pub ntime: u32,
}

/// The bridge state.
pub struct Bridge {
    upstream_prefix: Vec<u8>,
    upstream_ex2_len: usize,
    index_bytes: usize,
    max_channels: u32,
    channels: Vec<ChannelInfo>,
    aggregate_hashrate: u128,
    next_job_id: u32,
    last_notify: Option<CachedJob>,
    next_sequence: u32,
    upstream_open: bool,
}

impl Bridge {
    /// The live channel table.
    pub closed spec fn channels(&self) -> Seq<ChannelInfo> {
        self.channels@
    }

    pub closed spec fn prefix(&self) -> Seq<u8> {
        self.upstream_prefix@
    }

    pub closed spec fn index_bytes_spec(&self) -> nat {
        self.index_bytes as nat
    }

    pub closed spec fn max_channels_spec(&self) -> nat {
        self.max_channels as nat
    }

    pub closed spec fn aggregate(&self) -> int {
        self.aggregate_hashrate as int
    }

    pub closed spec fn last_notify_spec(&self) -> Option<CachedJob> {
        self.last_notify
    }

    pub closed spec fn next_job_id_spec(&self) -> nat {
        self.next_job_id as nat
    }

    /// The extranonce2 space the upstream granted in total.
    pub closed spec fn ex2_total(&self) -> nat {
        self.upstream_ex2_len as nat
    }

    /// The extranonce2 length every channel is granted.
    pub closed spec fn granted_ex2_len(&self) -> nat {
        (self.upstream_ex2_len - self.index_bytes) as nat
    }

    /// The extranonce prefix a channel id stands for: the upstream prefix
    /// followed by the id's bytes.
    pub open spec fn extranonce_for(&self, id: u32) -> Seq<u8> {
        self.prefix() + be_bytes(id as nat, self.index_bytes_spec())
    }

    /// The bridge invariant:
    /// - every live channel id is below the configured maximum, which fits
    ///   the reserved index bytes;
    /// - no two live channels share an id;
    /// - every channel's extranonce1 is the upstream prefix extended with
    ///   its id's bytes, and its extranonce2 length is the granted one;
    /// - the aggregate equals the sum of the live contributions.
    pub open spec fn wf(&self) -> bool {
        &&& 1 <= self.index_bytes_spec() <= 4
        &&& self.index_bytes_spec() < self.ex2_total()
        &&& self.max_channels_spec() <= pow256(self.index_bytes_spec())
        &&& forall|i: int|
            0 <= i < self.channels().len() ==> (#[trigger] self.channels()[i]).channel_id
                < self.max_channels_spec()
        &&& forall|i: int, j: int|
            0 <= i < j < self.channels().len() ==> (#[trigger] self.channels()[i]).channel_id != (
            #[trigger] self.channels()[j]).channel_id
        &&& forall|i: int|
            0 <= i < self.channels().len() ==> (#[trigger] self.channels()[i]).extranonce1@
                == self.extranonce_for(self.channels()[i].channel_id)
        &&& forall|i: int|
            0 <= i < self.channels().len() ==> (#[trigger] self.channels()[i]).ex2_len
                == self.granted_ex2_len()
        &&& self.aggregate() == sum_hr(self.channels())
    }

    /// A bridge over a freshly opened upstream channel. `upstream_ex2_len`
    /// is the extranonce2 space the upstream granted; the bridge reserves
    /// `index_bytes` of it for channel identity and leaves the rest to the
    /// miners.
    pub fn new(
        upstream_prefix: Vec<u8>,
        upstream_ex2_len: usize,
        index_bytes: usize,
        max_channels: u32,
    ) -> (r: Self)
        requires
            1 <= index_bytes <= 4,
            index_bytes < upstream_ex2_len,
            max_channels as nat <= pow256(index_bytes as nat),
        ensures
            r.wf(),
            r.channels().len() == 0,
            r.prefix() == upstream_prefix@,
            r.aggregate() == 0,
            r.last_notify_spec() is None,
            !r.is_ready(),
    {
        Bridge {
            upstream_prefix,
            upstream_ex2_len,
            index_bytes,
            max_channels,
            channels: Vec::new(),
            aggregate_hashrate: 0,
            next_job_id: 0,
            last_notify: None,
            next_sequence: 0,
            upstream_open: false,
        }
    }

    /// Whether sessions may be admitted: the upstream channel is open and a
    /// first job is cached.
    pub open spec fn is_ready(&self) -> bool {
        self.upstream_open_spec() && self.last_notify_spec() is Some
    }

    pub closed spec fn upstream_open_spec(&self) -> bool {
        self.upstream_open
    }

    /// Marks the upstream channel open.
    pub fn set_upstream_open(&mut self)
        requires
            old(self).wf(),
        ensures
            final(self).wf(),
            final(self).upstream_open_spec(),
            final(self).channels() == old(self).channels(),
            final(self).last_notify_spec() == old(self).last_notify_spec(),
            final(self).aggregate() == old(self).aggregate(),
            final(self).next_job_id_spec() == old(self).next_job_id_spec(),
    {
        self.upstream_open = true;
    }

    pub fn ready(&self) -> (r: bool)
        ensures
            r == self.is_ready(),
    {
        self.upstream_open && self.last_notify.is_some()
    }

    /// Whether some live channel uses this id.
    fn contains_id(&self, id: u32) -> (r: bool)
        ensures
            r == uses_id(self.channels(), id),
    {
        let n = self.channels.len();
        let mut i: usize = 0;
        while i < n
            invariant
                n == self.channels().len(),
                i <= n,
                forall|j: int| 0 <= j < i ==> (#[trigger] self.channels()[j]).channel_id != id,
            decreases n - i,
        {
            if self.channels[i].channel_id == id {
                return true;
            }
            i = i + 1;
        }
        false
    }

    /// Admits one new miner session: picks the lowest free channel index,
    /// derives its extranonce1 from the upstream prefix, adds its declared
    /// hashrate to the aggregate and hands back the channel. Fails with
    /// `UpstreamNotReady` before the first job, with `NoExtranonceSpace`
    /// when every index is live, and with `HashrateRejected` when the
    /// aggregate cannot take the contribution.
    pub fn on_new_sv1_connection(&mut self, expected_hashrate: u128) -> (r: Result<
        OpenedChannel,
        BridgeError,
    >)
        requires
            old(self).wf(),
        ensures
            final(self).wf(),
            match r {
                Ok(opened) => {
                    &&& old(self).is_ready()
                    &&& !uses_id(old(self).channels(), opened.channel_id)
                    &&& opened.channel_id < old(self).max_channels_spec()
                    &&& opened.extranonce@ == old(self).extranonce_for(opened.channel_id)
                    &&& opened.extranonce2_len == old(self).granted_ex2_len()
                    &&& opened.last_notify == old(self).last_notify_spec()
                    &&& final(self).channels().len() == old(self).channels().len() + 1
                    &&& final(self).channels().take(old(self).channels().len() as int) == old(
                        self,
                    ).channels()
                    &&& ({
                        let entry = final(self).channels().last();
                        &&& entry.channel_id == opened.channel_id
                        &&& entry.extranonce1@ == opened.extranonce@
                        &&& entry.ex2_len == opened.extranonce2_len
                        &&& entry.hashrate_contribution == expected_hashrate
                    })
                    &&& final(self).aggregate() == old(self).aggregate() + expected_hashrate
                },
                Err(BridgeError::UpstreamNotReady) => !old(self).is_ready() && *final(self)
                    == *old(self),
                Err(BridgeError::NoExtranonceSpace) => old(self).is_ready() && (forall|id: u32|
                    id < old(self).max_channels_spec() ==> uses_id(old(self).channels(), id))
                    && *final(self) == *old(self),
                Err(BridgeError::HashrateRejected) => old(self).is_ready() && old(self).aggregate()
                    + expected_hashrate > u128::MAX && *final(self) == *old(self),
            },
    {
        if !self.ready() {
            return Err(BridgeError::UpstreamNotReady);
        }
        if expected_hashrate > u128::MAX - self.aggregate_hashrate {
            proof {
                lemma_sum_hr_nonneg(self.channels());
            }
            return Err(BridgeError::HashrateRejected);
        }
        let max = self.max_channels;
        let mut id: u32 = 0;
        while id < max
            invariant
                *self == *old(self),
                self.wf(),
                self.is_ready(),
                expected_hashrate <= u128::MAX - self.aggregate(),
                max == self.max_channels_spec(),
                id <= max,
                forall|v: u32| v < id ==> uses_id(self.channels(), v),
            decreases max - id,
        {
            if !self.contains_id(id) {
                let mut extranonce: Vec<u8> = Vec::new();
                let mut p: usize = 0;
                let plen = self.upstream_prefix.len();
                while p < plen
                    invariant
                        plen == self.upstream_prefix@.len(),
                        p <= plen,
                        extranonce@ == self.upstream_prefix@.take(p as int),
                    decreases plen - p,
                {
                    extranonce.push(self.upstream_prefix[p]);
                    proof {
                        assert(self.upstream_prefix@.take(p + 1) =~= self.upstream_prefix@.take(
                            p as int,
                        ).push(self.upstream_prefix@[p as int]));
                    }
                    p = p + 1;
                }
                proof {
                    assert(self.upstream_prefix@.take(plen as int) =~= self.upstream_prefix@);
                }
                push_be_bytes(&mut extranonce, id as u64, self.index_bytes);
                let ex2_len = self.upstream_ex2_len - self.index_bytes;
                let extranonce_copy = copy_bytes(&extranonce);
                let info = ChannelInfo {
                    channel_id: id,
                    extranonce1: extranonce_copy,
                    ex2_len,
                    hashrate_contribution: expected_hashrate,
                };
                let ghost old_channels = self.channels@;
                self.channels.push(info);
                self.aggregate_hashrate = self.aggregate_hashrate + expected_hashrate;
                proof {
                    lemma_sum_hr_push(old_channels, info);
                    assert(self.channels@.take(old_channels.len() as int) =~= old_channels);
                }
                return Ok(
                    OpenedChannel {
                        channel_id: id,
                        extranonce,
                        extranonce2_len: ex2_len,
                        last_notify: self.last_notify,
                    },
                );
            }
            id = id + 1;
        }
        Err(BridgeError::NoExtranonceSpace)
    }

    /// Releases a live channel: removes its entry and returns its hashrate
    /// to the pool of unallocated contribution. Releasing an unknown id
    /// changes nothing and says so.
    pub fn release_channel(&mut self, channel_id: u32) -> (r: bool)
        requires
            old(self).wf(),
        ensures
            final(self).wf(),
            r == uses_id(old(self).channels(), channel_id),
            !r ==> *final(self) == *old(self),
            r ==> !uses_id(final(self).channels(), channel_id),
            r ==> final(self).channels().len() == old(self).channels().len() - 1,
            r ==> (exists|i: int|
                0 <= i < old(self).channels().len() && (#[trigger] old(self).channels()[
                i]).channel_id == channel_id && final(self).aggregate() == old(self).aggregate()
                    - old(self).channels()[i].hashrate_contribution),
            final(self).last_notify_spec() == old(self).last_notify_spec(),
    {
        let n = self.channels.len();
        let mut i: usize = 0;
        while i < n
            invariant
                *self == *old(self),
                self.wf(),
                n == self.channels().len(),
                i <= n,
                forall|j: int| 0 <= j < i ==> (#[trigger] self.channels()[j]).channel_id
                    != channel_id,
            decreases n - i,
        {
            if self.channels[i].channel_id == channel_id {
                let ghost old_channels = self.channels@;
                let removed = self.channels.remove(i);
                proof {
                    lemma_sum_hr_remove(old_channels, i as int);
                    lemma_sum_hr_nonneg(old_channels.remove(i as int));
                }
                self.aggregate_hashrate = self.aggregate_hashrate
                    - removed.hashrate_contribution as u128;
                proof {
                    assert forall|a: int, b: int|
                        0 <= a < b < self.channels().len() implies (#[trigger] self.channels()[
                        a]).channel_id != (#[trigger] self.channels()[b]).channel_id by {
                        if b < i {
                        } else if a < i {
                            assert(self.channels()[b] == old_channels[b + 1]);
                        } else {
                            assert(self.channels()[a] == old_channels[a + 1]);
                            assert(self.channels()[b] == old_channels[b + 1]);
                        }
                    }
                    assert forall|j: int| 0 <= j < self.channels().len() implies !((
                    #[trigger] self.channels()[j]).channel_id == channel_id) by {
                        if j >= i {
                            assert(self.channels()[j] == old_channels[j + 1]);
                        }
                    }
                }
                return true;
            }
            i = i + 1;
        }
        false
    }

    /// The aggregate hashrate currently advertised upstream.
    pub fn aggregate_hashrate(&self) -> (r: u128)
        ensures
            r == self.aggregate(),
    {
        self.aggregate_hashrate
    }

    /// Translates one upstream job for the miners: hands out the next
    /// miner-facing job id (monotonically increasing) and caches the job as
    /// the one newly admitted sessions start on. `None` once the id space
    /// is exhausted.
    pub fn on_new_job(&mut self, v2_job_id: u32, version: u32) -> (r: Option<u32>)
        requires
            old(self).wf(),
        ensures
            final(self).wf(),
            match r {
                Some(v1_id) => {
                    &&& old(self).next_job_id_spec() < u32::MAX
                    &&& v1_id == old(self).next_job_id_spec()
                    &&& final(self).next_job_id_spec() == old(self).next_job_id_spec() + 1
                    &&& final(self).last_notify_spec() == Some(
                        CachedJob { v1_id, v2_job_id, version },
                    )
                },
                None => old(self).next_job_id_spec() == u32::MAX && *final(self) == *old(self),
            },
            final(self).channels() == old(self).channels(),
            final(self).aggregate() == old(self).aggregate(),
    {
        if self.next_job_id == u32::MAX {
            return None;
        }
        let v1_id = self.next_job_id;
        self.next_job_id = self.next_job_id + 1;
        self.last_notify = Some(CachedJob { v1_id, v2_job_id, version });
        Some(v1_id)
    }

    /// Decides one submitted share: an unknown channel or a share below the
    /// session's target is refused here; otherwise the share is framed for
    /// the upstream under the next sequence number. Whether the share meets
    /// the target is established by the caller over the share's hash.
    pub fn on_sv1_submit(&mut self, channel_id: u32, share: TranslatedShare, meets_target: bool)
        -> (r: SubmitOutcome)
        requires
            old(self).wf(),
        ensures
            final(self).wf(),
            final(self).channels() == old(self).channels(),
            final(self).aggregate() == old(self).aggregate(),
            match r {
                SubmitOutcome::ForwardedPending(frame) => {
                    &&& uses_id(old(self).channels(), channel_id)
                    &&& meets_target
                    &&& frame.channel_id == channel_id
                    &&& frame.job_id == share.job_id_v2
                    &&& frame.nonce == share.nonce
                    &&& frame.ntime == share.ntime
                    &&& frame.version == share.version
                    &&& frame.extranonce == share.extranonce
                    &&& frame.sequence_number == old(self).next_sequence_spec()
                },
                SubmitOutcome::RejectedLocally(reason) => {
                    &&& (reason is JobIdNotFound && !uses_id(old(self).channels(), channel_id)) || (
                    reason is DifficultyMismatch && uses_id(old(self).channels(), channel_id)
                        && !meets_target)
                    &&& *final(self) == *old(self)
                },
            },
    {
        if !self.contains_id(channel_id) {
            return SubmitOutcome::RejectedLocally(RejectionReason::JobIdNotFound);
        }
        if !meets_target {
            return SubmitOutcome::RejectedLocally(RejectionReason::DifficultyMismatch);
        }
        let seq_no = self.next_sequence;
        self.next_sequence = if self.next_sequence == u32::MAX {
            0
        } else {
            self.next_sequence + 1
        };
        SubmitOutcome::ForwardedPending(
            SubmitSharesExtended {
                channel_id,
                sequence_number: seq_no,
                job_id: share.job_id_v2,
                nonce: share.nonce,
                ntime: share.ntime,
                version: share.version,
                extranonce: share.extranonce,
            },
        )
    }

    pub closed spec fn next_sequence_spec(&self) -> u32 {
        self.next_sequence
    }

    /// Renegotiates one live channel's hashrate contribution, as vardiff's
    /// fresh estimate demands: the entry keeps its identity and extranonce,
    /// only its contribution and the aggregate move. Refused, with nothing
    /// changed, for an unknown channel or when the new aggregate would not
    /// fit.
    pub fn update_channel_hashrate(&mut self, channel_id: u32, new_contribution: u128) -> (r: bool)
        requires
            old(self).wf(),
        ensures
            final(self).wf(),
            !r ==> *final(self) == *old(self),
            r ==> uses_id(old(self).channels(), channel_id),
            r ==> final(self).channels().len() == old(self).channels().len(),
            r ==> (exists|i: int|
                0 <= i < old(self).channels().len() && (#[trigger] old(self).channels()[
                i]).channel_id == channel_id && final(self).channels()[i].channel_id == channel_id
                    && final(self).channels()[i].extranonce1@ == old(self).channels()[
                i].extranonce1@ && final(self).channels()[i].ex2_len == old(self).channels()[
                i].ex2_len && final(self).channels()[i].hashrate_contribution == new_contribution
                    && (forall|j: int|
                    0 <= j < old(self).channels().len() && j != i ==> final(self).channels()[j]
                        == old(self).channels()[j]) && final(self).aggregate() == old(
                    self,
                ).aggregate() - old(self).channels()[i].hashrate_contribution + new_contribution),
            final(self).last_notify_spec() == old(self).last_notify_spec(),
    {
        let n = self.channels.len();
        let mut i: usize = 0;
        while i < n
            invariant
                *self == *old(self),
                self.wf(),
                n == self.channels().len(),
                i <= n,
                forall|j: int| 0 <= j < i ==> (#[trigger] self.channels()[j]).channel_id
                    != channel_id,
            decreases n - i,
        {
            if self.channels[i].channel_id == channel_id {
                let old_c = self.channels[i].hashrate_contribution;
                if new_contribution > old_c {
                    let inc = new_contribution - old_c;
                    if inc > u128::MAX - self.aggregate_hashrate {
                        proof {
                            lemma_sum_hr_nonneg(self.channels@);
                        }
                        return false;
                    }
                    self.aggregate_hashrate = self.aggregate_hashrate + inc;
                } else {
                    proof {
                        lemma_contribution_bounded(self.channels@, i as int);
                    }
                    self.aggregate_hashrate = self.aggregate_hashrate - (old_c - new_contribution);
                }
                let ghost before = self.channels@;
                let info = ChannelInfo {
                    channel_id,
                    extranonce1: copy_bytes(&self.channels[i].extranonce1),
                    ex2_len: self.channels[i].ex2_len,
                    hashrate_contribution: new_contribution,
                };
                self.channels.set(i, info);
                proof {
                    lemma_sum_hr_set(before, i as int, self.channels@[i as int]);
                    assert forall|a: int, b: int|
                        0 <= a < b < self.channels().len() implies (#[trigger] self.channels()[
                        a]).channel_id != (#[trigger] self.channels()[b]).channel_id by {
                        assert(before[a].channel_id != before[b].channel_id);
                    }
                }
                return true;
            }
            i = i + 1;
        }
        false
    }

    /// Builds the miner-facing notification for an upstream job combined
    /// with the latest prev-hash: a fresh monotone miner-facing id, the
    /// job's template fields, the prev-hash fields, and the clean-jobs flag
    /// from the prev-hash edge. The job becomes the one newly admitted
    /// sessions start on. `None` once the id space is exhausted.
    pub fn build_notify(&mut self, job: &V2Job, ph: &PrevHashUpdate, clean_jobs: bool) -> (r:
        Option<Notify>)
        requires
            old(self).wf(),
        ensures
            final(self).wf(),
            final(self).channels() == old(self).channels(),
            final(self).aggregate() == old(self).aggregate(),
            match r {
                Some(n) => {
                    &&& old(self).next_job_id_spec() < u32::MAX
                    &&& n.job_id == old(self).next_job_id_spec()
                    &&& final(self).next_job_id_spec() == old(self).next_job_id_spec() + 1
                    &&& final(self).last_notify_spec() == Some(
                        CachedJob { v1_id: n.job_id, v2_job_id: job.job_id, version: job.version },
                    )
                    &&& n.prev_hash@ == ph.prev_hash@
                    &&& n.coinbase1@ == job.coinbase1@
                    &&& n.coinbase2@ == job.coinbase2@
                    &&& n.merkle_branches@.len() == job.merkle_branches@.len()
                    &&& (forall|i: int|
                        0 <= i < n.merkle_branches@.len() ==> (#[trigger] n.merkle_branches@[i])@
                            == job.merkle_branches@[i]@)
                    &&& n.version == job.version
                    &&& n.nbits == ph.nbits
                    &&& n.ntime == ph.ntime
                    &&& n.clean_jobs == clean_jobs
                },
                None => old(self).next_job_id_spec() == u32::MAX && *final(self) == *old(self),
            },
    {
        let v1_id = match self.on_new_job(job.job_id, job.version) {
            Some(id) => id,
            None => {
                return None;
            },
        };
        let mut branches: Vec<Vec<u8>> = Vec::new();
        let nb = job.merkle_branches.len();
        let mut i: usize = 0;
        while i < nb
            invariant
                nb == job.merkle_branches@.len(),
                i <= nb,
                branches@.len() == i,
                forall|k: int|
                    0 <= k < i ==> (#[trigger] branches@[k])@ == job.merkle_branches@[k]@,
            decreases nb - i,
        {
            branches.push(copy_bytes(&job.merkle_branches[i]));
            i = i + 1;
        }
        Some(
            Notify {
                job_id: v1_id,
                prev_hash: copy_bytes(&ph.prev_hash),
                coinbase1: copy_bytes(&job.coinbase1),
                coinbase2: copy_bytes(&job.coinbase2),
                merkle_branches: branches,
                version: job.version,
                nbits: ph.nbits,
                ntime: ph.ntime,
                clean_jobs,
            },
        )
    }
}

/// Big-endian order: whether `a` does not exceed `b`, both most
/// significant byte first and equally long.
pub open spec fn spec_be_le(a: Seq<u8>, b: Seq<u8>) -> bool
    decreases a.len(),
{
    if a.len() == 0 {
        true
    } else if a[0] < b[0] {
        true
    } else if a[0] > b[0] {
        false
    } else {
        spec_be_le(a.skip(1), b.skip(1))
    }
}

/// The local target check of a submitted share: whether its hash, most
/// significant byte first, does not exceed the session's share target. The
/// hash itself comes from the upstream library's share reconstruction; the
/// comparison is decided here.
pub fn share_meets_target(hash: &Vec<u8>, target: &Vec<u8>) -> (r: bool)
    requires
        hash@.len() == target@.len(),
    ensures
        r == spec_be_le(hash@, target@),
{
    let n = hash.len();
    let mut i: usize = 0;
    proof {
        assert(hash@.skip(0) =~= hash@);
        assert(target@.skip(0) =~= target@);
    }
    while i < n
        invariant
            n == hash@.len() == target@.len(),
            i <= n,
            spec_be_le(hash@, target@) == spec_be_le(hash@.skip(i as int), target@.skip(i as int)),
        decreases n - i,
    {
        proof {
            assert(hash@.skip(i as int)[0] == hash@[i as int]);
            assert(target@.skip(i as int)[0] == target@[i as int]);
            assert(hash@.skip(i as int).skip(1) =~= hash@.skip(i + 1));
            assert(target@.skip(i as int).skip(1) =~= target@.skip(i + 1));
        }
        if hash[i] < target[i] {
            return true;
        }
        if hash[i] > target[i] {
            return false;
        }
        i = i + 1;
    }
    proof {
        assert(hash@.skip(n as int).len() == 0);
    }
    true
}

/// Every live V1 session resolves to exactly one channel entry: two entries
/// carrying one id are the same entry.
pub proof fn lemma_channel_entry_unique(b: &Bridge, i: int, j: int)
    requires
        b.wf(),
        0 <= i < b.channels().len(),
        0 <= j < b.channels().len(),
        b.channels()[i].channel_id == b.channels()[j].channel_id,
    ensures
        i == j,
{
}

/// Extranonce1 values across live channels are pairwise distinct, and each
/// extends the upstream-granted prefix.
pub proof fn lemma_extranonce_disjoint(b: &Bridge, i: int, j: int)
    requires
        b.wf(),
        0 <= i < b.channels().len(),
        0 <= j < b.channels().len(),
        i != j,
    ensures
        b.channels()[i].extranonce1@ != b.channels()[j].extranonce1@,
        b.channels()[i].extranonce1@.take(b.prefix().len() as int) == b.prefix(),
{
    let k = b.index_bytes_spec();
    let id1 = b.channels()[i].channel_id;
    let id2 = b.channels()[j].channel_id;
    lemma_be_bytes_len(id1 as nat, k);
    lemma_be_bytes_len(id2 as nat, k);
    assert(id1 != id2);
    lemma_pow256_at_least(k);
    if b.channels()[i].extranonce1@ == b.channels()[j].extranonce1@ {
        let e1 = b.extranonce_for(id1);
        let e2 = b.extranonce_for(id2);
        assert(e1 == e2);
        assert(e1.skip(b.prefix().len() as int) =~= be_bytes(id1 as nat, k));
        assert(e2.skip(b.prefix().len() as int) =~= be_bytes(id2 as nat, k));
        lemma_be_bytes_inj(id1 as nat, id2 as nat, k);
    }
    assert(b.channels()[i].extranonce1@.take(b.prefix().len() as int) =~= b.prefix());
}

/// Channel indexes stay below what the reserved bytes can address.
proof fn lemma_pow256_at_least(k: nat)
    ensures
        pow256(k) >= 1,
    decreases k,
{
    if k > 0 {
        lemma_pow256_at_least((k - 1) as nat);
    }
}

/// One channel never contributes more than the whole table's sum.
proof fn lemma_contribution_bounded(s: Seq<ChannelInfo>, i: int)
    requires
        0 <= i < s.len(),
    ensures
        s[i].hashrate_contribution <= sum_hr(s),
{
    lemma_sum_hr_remove(s, i);
    lemma_sum_hr_nonneg(s.remove(i));
}

/// Replacing one entry moves the sum by the difference of the two
/// contributions.
proof fn lemma_sum_hr_set(s: Seq<ChannelInfo>, i: int, info: ChannelInfo)
    requires
        0 <= i < s.len(),
    ensures
        sum_hr(s.update(i, info)) == sum_hr(s) - s[i].hashrate_contribution
            + info.hashrate_contribution,
{
    let u = s.update(i, info);
    assert(u.remove(i) =~= s.remove(i));
    lemma_sum_hr_remove(s, i);
    lemma_sum_hr_remove(u, i);
}

proof fn lemma_sum_hr_push(s: Seq<ChannelInfo>, info: ChannelInfo)
    ensures
        sum_hr(s.push(info)) == sum_hr(s) + info.hashrate_contribution,
{
    assert(s.push(info) =~= s + seq![info]);
    lemma_sum_hr_concat(s, seq![info]);
    assert(seq![info].skip(1) =~= Seq::<ChannelInfo>::empty());
    assert(sum_hr(seq![info].skip(1)) == 0);
    assert(seq![info][0] == info);
    assert(sum_hr(seq![info]) == info.hashrate_contribution);
}

/// Appends the big-endian `k`-byte rendering of `v`.
fn push_be_bytes(out: &mut Vec<u8>, v: u64, k: usize)
    ensures
        final(out)@ == old(out)@ + be_bytes(v as nat, k as nat),
    decreases k,
{
    if k == 0 {
        proof {
            assert(old(out)@ + be_bytes(v as nat, 0) =~= old(out)@);
        }
    } else {
        push_be_bytes(out, v / 256, k - 1);
        out.push((v % 256) as u8);
        proof {
            assert(old(out)@ + be_bytes(v as nat, k as nat) =~= (old(out)@ + be_bytes(
                (v / 256) as nat,
                (k - 1) as nat,
            )).push(((v as nat) % 256) as u8));
        }
    }
}

/// An explicit copy of a byte string.
fn copy_bytes(bytes: &Vec<u8>) -> (r: Vec<u8>)
    ensures
        r@ == bytes@,
{
    let mut out: Vec<u8> = Vec::new();
    let n = bytes.len();
    let mut i: usize = 0;
    while i < n
        invariant
            n == bytes@.len(),
            i <= n,
            out@ == bytes@.take(i as int),
        decreases n - i,
    {
        out.push(bytes[i]);
        proof {
            assert(bytes@.take(i + 1) =~= bytes@.take(i as int).push(bytes@[i as int]));
        }
        i = i + 1;
    }
    proof {
        assert(bytes@.take(n as int) =~= bytes@);
    }
    out
}

} // verus!
