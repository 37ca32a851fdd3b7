//! The task record: the unit of schedulable work, its lifecycle states, and
//! the ghost model that the store and protocol contracts are stated over.

use vstd::prelude::*;

verus! {

/// Sentinel processor identity: a task carrying it is unclaimed.
pub const NIL_PROCESSOR: u128 = 0;

/// Lifecycle state of a task. Transitions move only forward:
/// `Ready` to `Processing` (a successful claim) and `Processing` to
/// `Complete` (the executor finished); `Complete` is terminal.
#[derive(Clone, Copy, PartialEq, Eq, Structural, Debug)]
pub enum TaskState {
    Ready,
    Processing,
    Complete,
}

/// A point in time, in milliseconds. The store compares it against the
/// current time to decide whether a task is due.
#[derive(Clone, Copy, PartialEq, Eq, Structural, Debug)]
pub struct Timestamp {
    pub millis: i64,
}

impl Timestamp {
    pub fn from_millis(millis: i64) -> (r: Timestamp)
        ensures
            r.millis == millis,
    {
        Timestamp { millis }
    }

    /// Whether this instant is no later than `other`.
    pub fn is_due_by(&self, other: &Timestamp) -> (r: bool)
        ensures
            r == (self.millis <= other.millis),
    {
        self.millis <= other.millis
    }
}

/// The mathematical value of one task record.
pub ghost struct TaskModel {
    pub id: u128,
    pub task_type: Seq<char>,
    pub state: TaskState,
    pub send_ts: int,
    pub processor: u128,
}

impl TaskModel {
    /// Record-level invariant: a `Ready` task is unclaimed, and a
    /// `Processing` task always names its claimant.
    pub open spec fn wf(self) -> bool {
        &&& self.state is Ready ==> self.processor == NIL_PROCESSOR
        &&& self.state is Processing ==> self.processor != NIL_PROCESSOR
    }

    /// Whether the task is eligible for claiming at time `now`: ready,
    /// unclaimed, and due.
    pub open spec fn eligible(self, now: int) -> bool {
        &&& self.state is Ready
        &&& self.processor == NIL_PROCESSOR
        &&& self.send_ts <= now
    }

    /// The record after an unconditional assignment to `processor`.
    pub open spec fn assigned_to(self, processor: u128) -> TaskModel {
        TaskModel { state: TaskState::Processing, processor: processor, ..self }
    }

    /// The record after an unconditional completion write.
    pub open spec fn completed(self) -> TaskModel {
        TaskModel { state: TaskState::Complete, ..self }
    }
}

/// One schedulable task, as stored in the task table.
#[derive(Debug)]
pub struct Task {
    /// Globally unique identifier, assigned at creation, immutable.
    pub id: u128,
    /// Tag selecting the handler; immutable after creation.
    pub task_type: String,
    /// Lifecycle state.
    pub state: TaskState,
    /// Instant after which the task becomes eligible for claiming.
    pub send_ts: Timestamp,
    /// Identity of the supervisor currently owning the task;
    /// `NIL_PROCESSOR` means unclaimed.
    pub processor: u128,
}

impl View for Task {
    type V = TaskModel;

    open spec fn view(&self) -> TaskModel {
        TaskModel {
            id: self.id,
            task_type: self.task_type@,
            state: self.state,
            send_ts: self.send_ts.millis as int,
            processor: self.processor,
        }
    }
}

impl Task {
    /// A fresh task as the creation path writes it: ready, unclaimed, due at
    /// `send_ts`, with a newly drawn identifier.
    pub fn new(task_type: String, send_ts: Timestamp) -> (r: Task)
        ensures
            r@.task_type == task_type@,
            r@.send_ts == send_ts.millis as int,
            r@.state is Ready,
            r@.processor == NIL_PROCESSOR,
            r@.wf(),
    {
        Task {
            id: fresh_id(),
            task_type,
            state: TaskState::Ready,
            send_ts,
            processor: NIL_PROCESSOR,
        }
    }

    /// A field-for-field copy of this record.
    pub fn duplicate(&self) -> (r: Task)
        ensures
            r@ == self@,
    {
        Task {
            id: self.id,
            task_type: self.task_type.clone(),
            state: self.state,
            send_ts: self.send_ts,
            processor: self.processor,
        }
    }
}

/// Errors raised by the task-table operations.
#[derive(Clone, Copy, PartialEq, Eq, Structural, Debug)]
pub enum TaskError {
    /// The store rejected the query.
    QuerySucks,
    /// The query returned no row to type.
    TypedError,
}

/// Relies on `uuid::Uuid::new_v4` (via `as_u128`): a version-4 identifier
/// always carries its version and variant bits, so the 128-bit value is
/// never zero, i.e. never the nil sentinel.
#[verifier::external_body]
pub(crate) fn fresh_id() -> (r: u128)
    ensures
        r != NIL_PROCESSOR,
{
    uuid::Uuid::new_v4().as_u128()
}

} // verus!
