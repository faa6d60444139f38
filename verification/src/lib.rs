//! A minimal container-workload orchestrator.
//!
//! A central manager accepts task submissions, selects a worker from a
//! configured pool by round-robin and dispatches the task to it.  Each worker
//! queues incoming tasks and drives their lifecycle through a container
//! runtime, validating every state change against a finite-state machine.
//! This crate holds the decision logic of both halves; the transport and the
//! runtime calls themselves are performed by the surrounding application.

pub mod state;
pub mod task;
pub mod docker;
pub mod worker;
pub mod manager;
pub mod stats;
pub mod scheduler;
