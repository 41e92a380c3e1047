//! Task-handle bundles and version-rolling negotiation.
//!
//! A spawned background task is controlled through its abort handle; an
//! `AbortOnDrop` bundles the handles of the tasks that belong together, so
//! that releasing the bundle can cancel them all. The handles themselves are
//! opaque runtime values; what the library verifies is the bookkeeping
//! around them.
use vstd::prelude::*;

verus! {

/// The handle of a spawned task, opaque to the verifier.
#[verifier::external_type_specification]
#[verifier::external_body]
#[verifier::reject_recursive_types(T)]
pub struct ExJoinHandle<T>(tokio::task::JoinHandle<T>);

/// The permission to cancel a spawned task, opaque to the verifier.
#[verifier::external_type_specification]
#[verifier::external_body]
pub struct ExAbortHandle(tokio::task::AbortHandle);

/// The error a joined task can report; it only rides along in signatures.
#[verifier::external_type_specification]
#[verifier::external_body]
pub struct ExJoinError(tokio::task::JoinError);

/// The wire-level `mining.configure` request of the V1 protocol library,
/// opaque to the verifier; its fields are read through `configure_params`.
#[verifier::external_type_specification]
#[verifier::external_body]
pub struct ExConfigure(sv1_api::client_to_server::Configure);

/// Relies on tokio::task::JoinHandle::abort_handle: a handle that can
/// remotely cancel the same task.
#[verifier::external_body]
fn get_abort_handle<T>(handle: &tokio::task::JoinHandle<T>) -> tokio::task::AbortHandle {
    handle.abort_handle()
}

/// Relies on tokio::task::AbortHandle::abort: cancels the task, a no-op if
/// it already finished; it does not panic.
#[verifier::external_body]
fn abort_task(handle: &tokio::task::AbortHandle)
    opens_invariants none
    no_unwind
{
    handle.abort();
}

/// Relies on tokio::task::AbortHandle::is_finished: whether the task has run
/// to completion; a cancelled task may report false until the cancellation
/// completes.
#[verifier::external_body]
fn task_is_finished(handle: &tokio::task::AbortHandle) -> bool {
    handle.is_finished()
}

/// The abort handles of a group of tasks that stand or fall together.
pub struct AbortOnDrop {
    abort_handle: Vec<tokio::task::AbortHandle>,
}

impl AbortOnDrop {
    /// The abort handles the bundle holds, in enrolment order.
    pub closed spec fn handles(&self) -> Seq<tokio::task::AbortHandle> {
        self.abort_handle@
    }

    /// How many task handles the bundle holds.
    pub open spec fn task_count(&self) -> nat {
        self.handles().len()
    }

    /// A bundle holding the one task behind `handle`.
    pub fn new<T: Send + 'static>(handle: tokio::task::JoinHandle<T>) -> (r: Self)
        ensures
            r.task_count() == 1,
    {
        let mut abort_handle: Vec<tokio::task::AbortHandle> = Vec::new();
        abort_handle.push(get_abort_handle(&handle));
        Self { abort_handle }
    }

    /// Whether every task in the bundle has finished. A task that was
    /// cancelled but has not yet wound down still counts as unfinished.
    pub fn is_finished(&self) -> bool {
        let mut i: usize = 0;
        while i < self.abort_handle.len()
            invariant
                i <= self.abort_handle@.len(),
            decreases self.abort_handle@.len() - i,
        {
            if !task_is_finished(&self.abort_handle[i]) {
                return false;
            }
            i = i + 1;
        }
        true
    }

    /// Enrols one more task in the bundle: the handles already held stay,
    /// the new task's handle is appended.
    pub fn add_task<T: Send + 'static>(&mut self, handle: tokio::task::JoinHandle<T>)
        ensures
            final(self).task_count() == old(self).task_count() + 1,
            final(self).handles().take(old(self).handles().len() as int) == old(self).handles(),
    {
        self.abort_handle.push(get_abort_handle(&handle));
        proof {
            assert(self.abort_handle@.take(old(self).handles().len() as int) =~= old(
                self,
            ).handles());
        }
    }

    /// Cancels every task in the bundle; dropping the bundle does the
    /// same.
    pub fn abort_all(&self)
    {
        let mut i: usize = 0;
        while i < self.abort_handle.len()
            invariant
                i <= self.abort_handle@.len(),
            decreases self.abort_handle@.len() - i,
        {
            abort_task(&self.abort_handle[i]);
            i = i + 1;
        }
    }
}

impl Drop for AbortOnDrop {
    /// Relies on tokio::task::AbortHandle::abort: dropping the bundle
    /// cancels every task it holds, one abort per handle, none of which
    /// panics. The body stays outside verification because a destructor may
    /// not open invariants, which every verified vector access would.
    #[verifier::external_body]
    fn drop(&mut self)
        opens_invariants none
        no_unwind
    {
        for handle in &self.abort_handle {
            handle.abort();
        }
    }
}

/// Selects the version-rolling mask and minimum bit count granted to a miner
/// that asked for `mask` and `min_bits`: the mask is narrowed to the bits the
/// proxy exposes, and an absent field is granted as zero.
pub fn rolling_params(mask: Option<u32>, min_bits: Option<u32>) -> (r: (u32, u32))
    ensures
        r.0 == (match mask {
            Some(m) => m & crate::VERSION_ROLLING_MASK,
            None => 0u32,
        }),
        r.1 == (match min_bits {
            Some(b) => b,
            None => 0u32,
        }),
{
    let granted_mask = match mask {
        Some(m) => m & crate::VERSION_ROLLING_MASK,
        None => 0,
    };
    let granted_min = match min_bits {
        Some(b) => b,
        None => 0,
    };
    (granted_mask, granted_min)
}

/// Relies on sv1_api::client_to_server::Configure::version_rolling_mask and
/// version_rolling_min_bit_count: the optional mask and minimum bit count the
/// miner requested, as plain words.
#[verifier::external_body]
fn configure_params(configure: &sv1_api::client_to_server::Configure) -> (Option<u32>, Option<u32>) {
    (
        configure.version_rolling_mask().map(|m| m.0),
        configure.version_rolling_min_bit_count().map(|m| m.0),
    )
}

/// Selects the version-rolling parameters for a miner's `mining.configure`
/// request. Whatever was asked, the granted mask stays inside the bits the
/// proxy exposes.
pub fn sv1_rolling(configure: &sv1_api::client_to_server::Configure) -> (r: (u32, u32))
    ensures
        r.0 & crate::VERSION_ROLLING_MASK == r.0,
{
    let (mask, min_bits) = configure_params(configure);
    let r = rolling_params(mask, min_bits);
    proof {
        match mask {
            Some(q) => {
                assert(r.0 == q & 0x1FFFE000u32);
                assert((q & 0x1FFFE000u32) & 0x1FFFE000u32 == q & 0x1FFFE000u32) by (bit_vector);
            },
            None => {
                assert(0u32 & 0x1FFFE000u32 == 0u32) by (bit_vector);
            },
        }
    }
    r
}

/// A miner account identifier.
#[derive(Debug, PartialEq, Eq, Clone, Copy)]
pub struct UserId(pub i64);

impl UserId {
    /// The identifier in decimal, as it is written into requests.
    pub fn display(&self) -> (r: String)
        ensures
            r@ == crate::textfmt::dec_str_i64(self.0 as int),
    {
        crate::textfmt::i64_to_string(self.0)
    }
}

} // verus!
