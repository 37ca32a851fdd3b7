//! The task executor: handler dispatch by type tag, and the completion
//! write that follows every handler run.
//!
//! Dispatch resolves a task's type tag against the registered handler set;
//! an unregistered tag resolves to the warn-and-skip handler rather than an
//! error. The handler bodies themselves perform arbitrary I/O and live with
//! the runtime; the executor's own obligation is stated here: whatever the
//! handler outcome, the task is marked complete exactly once.

use vstd::prelude::*;

use crate::store::{complete_model, TaskStore};
use crate::task::Task;

verus! {

/// The registered handlers, keyed by type tag, plus the warn-and-skip
/// handler every unregistered tag resolves to.
#[derive(Clone, Copy, PartialEq, Eq, Structural, Debug)]
pub enum HandlerKind {
    Foo,
    Bar,
    Baz,
    Unregistered,
}

/// The handler a type tag selects.
pub open spec fn spec_handler_kind(tag: Seq<char>) -> HandlerKind {
    if tag == "foo"@ {
        HandlerKind::Foo
    } else if tag == "bar"@ {
        HandlerKind::Bar
    } else if tag == "baz"@ {
        HandlerKind::Baz
    } else {
        HandlerKind::Unregistered
    }
}

/// Resolve a type tag to its handler. This is the single decision point for
/// the unregistered-tag policy: such tags select `Unregistered`, which runs
/// no handler body, rather than failing the executor.
pub fn handler_kind(tag: &String) -> (r: HandlerKind)
    ensures
        r == spec_handler_kind(tag@),
{
    if *tag == "foo".to_owned() {
        HandlerKind::Foo
    } else if *tag == "bar".to_owned() {
        HandlerKind::Bar
    } else if *tag == "baz".to_owned() {
        HandlerKind::Baz
    } else {
        HandlerKind::Unregistered
    }
}

/// The executor's bookkeeping for one claimed task: resolve the handler
/// its type tag selects, then mark the task complete. The completion write
/// is issued exactly once, and — deliberately, matching the scheduler's
/// completion policy — it is issued whether or not the handler failed, and
/// also when the tag selected no registered handler.
pub fn run_task(store: &mut TaskStore, task: &Task, handler_failed: bool) -> (r: HandlerKind)
    requires
        old(store).wf(),
    ensures
        final(store).wf(),
        final(store)@ == complete_model(old(store)@, task@.id),
        r == spec_handler_kind(task@.task_type),
{
    let kind = handler_kind(&task.task_type);
    let _ = handler_failed;
    store.complete_task(task.id);
    kind
}

} // verus!
