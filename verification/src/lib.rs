//! Destination-bound message processor: a three-stage scheduler that drives
//! each cross-chain message through prepare, submit and confirm until it is
//! delivered, dropped, or retried.
//!
//! The scheduler logic lives here, fully verified: the per-stage priority
//! queues with their ordering and eligibility rules, the routing of stage
//! results between queues, the retry channel semantics, the metric counters,
//! and the decision logic of the lander (external dispatcher) submission and
//! confirmation paths. The chain calls, the storage engine and the async
//! task plumbing are collaborators: the surrounding runtime performs them and
//! hands their results to the functions here.

pub mod lander;
pub mod op;
pub mod op_queue;
pub mod processor;
