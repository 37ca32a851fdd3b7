//! A verified claim-and-dispatch engine for a distributed task scheduler.
//!
//! Clients enqueue typed, time-scheduled tasks into a shared task table.
//! Supervisors poll that table, claim a bounded batch of due tasks through a
//! three-phase protocol (propose, assign, confirm) so that at most one
//! supervisor executes a task concurrently, dispatch each claimed task to a
//! handler selected by its type tag, and mark tasks complete afterwards.
//!
//! The modules split the engine along its seams: the task record and its
//! well-formedness ([`task`]), the task table and the store operations the
//! protocol needs ([`store`]), the claim protocol itself and its exclusivity
//! arguments ([`claim`]), the supervisor's admission control ([`supervisor`]),
//! handler dispatch ([`executor`]), and the connection configuration for the
//! backing store ([`connection`]).

pub mod claim;
pub mod connection;
pub mod executor;
pub mod store;
pub mod supervisor;
pub mod task;
