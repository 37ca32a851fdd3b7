//! The supervisor: the concurrency controller of the scheduler.
//!
//! A supervisor owns a process-local count of in-flight tasks, a fixed
//! concurrency ceiling and a fixed batch size. Each polling cycle first
//! drains completion notifications, then runs the claim protocol only while
//! the headroom check admits a full batch, so the in-flight count can never
//! pass the ceiling. The control loop itself (spawning workers, sleeping
//! while full) lives with the runtime; everything the loop decides is here.

use vstd::prelude::*;

use crate::claim::{ids_of, process_tasks};
use crate::store::{assign_model, has_id, models_of, record_of, TaskStore};
use crate::task::{fresh_id, NIL_PROCESSOR, Task, Timestamp};

verus! {

/// Marker for a worker that ended without delivering its outcome.
#[derive(Clone, Copy, PartialEq, Eq, Structural, Debug)]
pub struct WorkerError {}

/// One supervisor instance: an ephemeral processor identity plus the
/// admission state of its control loop.
pub struct Supervisor {
    /// The processor identity stamped onto claimed tasks; freshly drawn per
    /// process start, never the nil sentinel.
    pub id: u128,
    /// Tasks launched and not yet drained as complete.
    pub in_flight: i32,
    /// Upper bound on concurrently in-flight tasks.
    pub concurrency_ceiling: i32,
    /// Candidates requested per polling cycle; at most the ceiling.
    pub batch_size: i32,
}

impl Supervisor {
    /// Controller invariant: the identity is real, the batch fits under the
    /// ceiling, and the in-flight count stays between zero and the ceiling.
    pub open spec fn wf(self) -> bool {
        &&& self.id != NIL_PROCESSOR
        &&& 0 < self.batch_size <= self.concurrency_ceiling
        &&& 0 <= self.in_flight <= self.concurrency_ceiling
    }

    pub fn new(concurrency_ceiling: i32, batch_size: i32) -> (r: Supervisor)
        requires
            0 < batch_size <= concurrency_ceiling,
        ensures
            r.wf(),
            r.in_flight == 0,
            r.concurrency_ceiling == concurrency_ceiling,
            r.batch_size == batch_size,
    {
        Supervisor { id: fresh_id(), in_flight: 0, concurrency_ceiling, batch_size }
    }

    /// The headroom check: polling is admitted only while a full batch
    /// could be launched without passing the ceiling.
    pub open spec fn spec_admission_allows(self) -> bool {
        self.in_flight <= self.concurrency_ceiling - self.batch_size
    }

    pub fn admission_allows(&self) -> (r: bool)
        requires
            self.wf(),
        ensures
            r == self.spec_admission_allows(),
    {
        self.in_flight <= self.concurrency_ceiling - self.batch_size
    }

    /// Drain `n` completion notifications: one launched task finished per
    /// notification, so the in-flight count drops by `n`.
    pub fn drain_notifications(&mut self, n: i32)
        requires
            old(self).wf(),
            0 <= n <= old(self).in_flight,
        ensures
            final(self).wf(),
            final(self).in_flight == old(self).in_flight - n,
            final(self).id == old(self).id,
            final(self).concurrency_ceiling == old(self).concurrency_ceiling,
            final(self).batch_size == old(self).batch_size,
    {
        self.in_flight = self.in_flight - n;
    }

    /// One post-drain polling cycle: when the headroom check admits it, run
    /// the claim protocol and count every confirmed task as launched;
    /// otherwise touch nothing (the loop idles instead). The in-flight
    /// count never passes the ceiling, and a table with no due work is
    /// never written to.
    pub fn supervise_cycle(&mut self, store: &mut TaskStore, now: Timestamp) -> (r: Vec<Task>)
        requires
            old(self).wf(),
            old(store).wf(),
        ensures
            final(self).wf(),
            final(store).wf(),
            final(self).id == old(self).id,
            final(self).concurrency_ceiling == old(self).concurrency_ceiling,
            final(self).batch_size == old(self).batch_size,
            final(self).in_flight <= final(self).concurrency_ceiling,
            r@.len() <= old(self).batch_size,
            forall|k: int, l: int|
                0 <= k < r@.len() && 0 <= l < r@.len() && k != l ==> r@[k]@.id != r@[l]@.id,
            old(self).spec_admission_allows() ==> {
                &&& final(store)@ == assign_model(
                    old(store)@,
                    old(self).id,
                    ids_of(models_of(r@)),
                )
                &&& final(self).in_flight == old(self).in_flight + r@.len()
                &&& forall|k: int|
                    0 <= k < r@.len() ==> has_id(old(store)@, #[trigger] r@[k]@.id) && record_of(
                        old(store)@,
                        r@[k]@.id,
                    ).eligible(now.millis as int) && r@[k]@ == record_of(
                        old(store)@,
                        r@[k]@.id,
                    ).assigned_to(old(self).id)
                &&& (r@.len() < old(self).batch_size ==> forall|i: int|
                    0 <= i < old(store)@.len() && old(store)@[i].eligible(now.millis as int)
                        ==> ids_of(models_of(r@)).contains(old(store)@[i].id))
            },
            !old(self).spec_admission_allows() ==> final(store)@ == old(store)@ && r@.len() == 0
                && final(self).in_flight == old(self).in_flight,
            (forall|i: int|
                0 <= i < old(store)@.len() ==> !old(store)@[i].eligible(now.millis as int))
                ==> final(store)@ == old(store)@ && r@.len() == 0 && final(self).in_flight == old(
                self,
            ).in_flight,
            // completion is terminal: a polling cycle never writes to a
            // completed record
            forall|i: int|
                0 <= i < old(store)@.len() && old(store)@[i].state is Complete
                    ==> final(store)@[i] == old(store)@[i],
    {
        if self.admission_allows() {
            let claimed = process_tasks(store, self.id, self.batch_size, now);
            let n = claimed.len();
            self.in_flight = self.in_flight + (n as i32);
            claimed
        } else {
            Vec::new()
        }
    }
}

/// Ceiling respected: whenever the headroom check admits a poll, launching
/// any batch of at most `batch_size` tasks keeps the in-flight count at or
/// under the concurrency ceiling.
pub proof fn lemma_ceiling_respected(s: Supervisor, launched: int)
    requires
        s.wf(),
        s.spec_admission_allows(),
        0 <= launched <= s.batch_size,
    ensures
        s.in_flight + launched <= s.concurrency_ceiling,
{
}

} // verus!
