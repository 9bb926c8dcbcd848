//! Core of a replicated-state-machine runtime: a durable-log storage
//! adapter, a deterministic state-machine plugin protocol with a
//! deserialization registry, and the membership/mailbox protocol that
//! lets nodes join and leave a cluster safely.

pub mod codec;
pub mod errors;
pub mod fsm;
pub mod node;
pub mod registry;
pub mod storage;
pub mod types;
