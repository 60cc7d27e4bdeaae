//! Coordination logic of a distributed benchmark harness for a
//! total-order-broadcast engine.
//!
//! The crate holds the parts of the harness that decide: how the global
//! work-item index space is split among broker workers, how the rendezvous
//! directory fills its shards, how the workers of a broker process are
//! brought to a common start, and how a server samples its throughput.
//! Waiting, networking and printing are left to the caller.

pub mod assets;
pub mod coordinator;
pub mod directory;
pub mod partition;
pub mod role;
pub mod sampler;
pub mod worker;
