//! The task supervisor. Every background task is registered here, either
//! globally or under the connection it serves; aborting a connection cancels
//! exactly that connection's tasks and no others. The registry below is the
//! part that decides; spawning and the channel that feeds registrations are
//! runtime plumbing outside the library.
use vstd::prelude::*;
use vstd::seq_lib::*;

use crate::shared::utils::AbortOnDrop;

verus! {

/// Tracks every registered task bundle by the connection it belongs to;
/// `None` is the global group.
pub struct TaskManager {
    tasks: Vec<(Option<u32>, AbortOnDrop)>,
    abort: Option<AbortOnDrop>,
}

/// Whether an entry belongs to the given connection.
pub open spec fn in_group(entry: (Option<u32>, AbortOnDrop), id: u32) -> bool {
    entry.0 == Some(id)
}

impl TaskManager {
    /// The registered (group, bundle) entries in registration order.
    pub closed spec fn entries(&self) -> Seq<(Option<u32>, AbortOnDrop)> {
        self.tasks@
    }

    /// The supervisor's own aborter, until someone takes it.
    pub closed spec fn aborter(&self) -> Option<AbortOnDrop> {
        self.abort
    }

    /// How many task bundles are registered.
    pub fn task_count(&self) -> (r: usize)
        ensures
            r == self.entries().len(),
    {
        self.tasks.len()
    }

    /// A supervisor with no tasks and no aborter installed yet.
    pub fn initialize() -> (r: Self)
        ensures
            r.entries().len() == 0,
            r.aborter() is None,
    {
        TaskManager { tasks: Vec::new(), abort: None }
    }

    /// Installs the bundle that controls the supervisor's own plumbing.
    pub fn set_aborter(&mut self, aborter: AbortOnDrop)
        ensures
            final(self).aborter() == Some(aborter),
            final(self).entries() == old(self).entries(),
    {
        self.abort = Some(aborter);
    }

    /// Hands the supervisor's own aborter to the caller, once.
    pub fn get_aborter(&mut self) -> (r: Option<AbortOnDrop>)
        ensures
            r == old(self).aborter(),
            final(self).aborter() is None,
            final(self).entries() == old(self).entries(),
    {
        self.abort.take()
    }

    /// Registers a task under a connection, or globally for `None`.
    fn add_task(&mut self, connection_id: Option<u32>, abortable: AbortOnDrop)
        ensures
            final(self).entries() == old(self).entries().push((connection_id, abortable)),
            final(self).aborter() == old(self).aborter(),
    {
        self.tasks.push((connection_id, abortable));
    }

    /// Registers a connection's inbound reader task.
    pub fn add_receive_downstream(&mut self, abortable: AbortOnDrop, connection_id: u32) -> (r:
        Result<(), ()>)
        ensures
            r is Ok,
            final(self).entries() == old(self).entries().push((Some(connection_id), abortable)),
            final(self).aborter() == old(self).aborter(),
    {
        self.add_task(Some(connection_id), abortable);
        Ok(())
    }

    /// Registers a connection's difficulty-update task.
    pub fn add_update(&mut self, abortable: AbortOnDrop, connection_id: u32) -> (r: Result<(), ()>)
        ensures
            r is Ok,
            final(self).entries() == old(self).entries().push((Some(connection_id), abortable)),
            final(self).aborter() == old(self).aborter(),
    {
        self.add_task(Some(connection_id), abortable);
        Ok(())
    }

    /// Registers a connection's job-notification task.
    pub fn add_notify(&mut self, abortable: AbortOnDrop, connection_id: u32) -> (r: Result<(), ()>)
        ensures
            r is Ok,
            final(self).entries() == old(self).entries().push((Some(connection_id), abortable)),
            final(self).aborter() == old(self).aborter(),
    {
        self.add_task(Some(connection_id), abortable);
        Ok(())
    }

    /// Registers a connection's outbound writer task.
    pub fn add_send_downstream(&mut self, abortable: AbortOnDrop, connection_id: u32) -> (r: Result<
        (),
        (),
    >)
        ensures
            r is Ok,
            final(self).entries() == old(self).entries().push((Some(connection_id), abortable)),
            final(self).aborter() == old(self).aborter(),
    {
        self.add_task(Some(connection_id), abortable);
        Ok(())
    }

    /// Registers the global connection-acceptor task.
    pub fn add_accept_connection(&mut self, abortable: AbortOnDrop) -> (r: Result<(), ()>)
        ensures
            r is Ok,
            final(self).entries() == old(self).entries().push((None, abortable)),
            final(self).aborter() == old(self).aborter(),
    {
        self.add_task(None, abortable);
        Ok(())
    }

    /// Registers the global share-telemetry task.
    pub fn add_shares_monitor(&mut self, abortable: AbortOnDrop) -> (r: Result<(), ()>)
        ensures
            r is Ok,
            final(self).entries() == old(self).entries().push((None, abortable)),
            final(self).aborter() == old(self).aborter(),
    {
        self.add_task(None, abortable);
        Ok(())
    }

    /// Cancels and removes every task registered under `connection_id`.
    /// Tasks of other connections and global tasks are untouched and keep
    /// their order.
    pub fn abort_tasks_for_connection_id(&mut self, connection_id: u32)
        ensures
            final(self).entries() == old(self).entries().filter(
                |entry: (Option<u32>, AbortOnDrop)| !in_group(entry, connection_id),
            ),
            final(self).aborter() == old(self).aborter(),
    {
        let ghost all = self.tasks@;
        let ghost pred = |entry: (Option<u32>, AbortOnDrop)| !in_group(entry, connection_id);
        let ghost old_abort = self.abort;
        let n = self.tasks.len();
        let mut kept: Vec<(Option<u32>, AbortOnDrop)> = Vec::new();
        proof {
            reveal_with_fuel(Seq::filter, 1);
            assert(all.take(0) =~= Seq::<(Option<u32>, AbortOnDrop)>::empty());
            assert(all.take(0).filter(pred) =~= Seq::<(Option<u32>, AbortOnDrop)>::empty());
        }
        let mut i: usize = 0;
        while i < n
            invariant
                n == all.len(),
                i <= n,
                self.tasks@ == all.skip(i as int),
                self.abort == old_abort,
                kept@ == all.take(i as int).filter(pred),
                pred == (|entry: (Option<u32>, AbortOnDrop)| !in_group(entry, connection_id)),
            decreases n - i,
        {
            let entry = self.tasks.remove(0);
            proof {
                assert(all.skip(i as int)[0] == all[i as int]);
                assert(all.skip(i as int).remove(0) =~= all.skip(i + 1));
                reveal_with_fuel(Seq::filter, 1);
                assert(all.take(i + 1).drop_last() =~= all.take(i as int));
                assert(all.take(i + 1).last() == all[i as int]);
            }
            let is_mine = match &entry.0 {
                Some(g) => *g == connection_id,
                None => false,
            };
            if is_mine {
                // Cancel the connection's tasks before the handles go away.
                entry.1.abort_all();
                proof {
                    assert(!pred(all[i as int]));
                    assert(all.take(i + 1).filter(pred) =~= all.take(i as int).filter(pred));
                }
            } else {
                kept.push(entry);
                proof {
                    assert(pred(all[i as int]));
                    assert(all.take(i + 1).filter(pred) =~= all.take(i as int).filter(pred).push(
                        all[i as int],
                    ));
                }
            }
            i = i + 1;
        }
        proof {
            assert(all.take(n as int) =~= all);
        }
        self.tasks = kept;
    }
}

/// When a connection group has been aborted, no entry of that group
/// remains: every entry that survives the abort is outside the group.
pub proof fn lemma_abort_clears_group(entries: Seq<(Option<u32>, AbortOnDrop)>, id: u32, i: int)
    requires
        0 <= i < entries.filter(|e: (Option<u32>, AbortOnDrop)| !in_group(e, id)).len(),
    ensures
        !in_group(entries.filter(|e: (Option<u32>, AbortOnDrop)| !in_group(e, id))[i], id),
{
    entries.lemma_filter_pred(|e: (Option<u32>, AbortOnDrop)| !in_group(e, id), i);
}

} // verus!
