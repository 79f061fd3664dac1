//! A message-driven state aggregator: messages from a broker are folded into
//! an in-memory aggregate (a counter, or a last-write-wins key-value map) that
//! concurrent readers snapshot.

pub mod text;
pub mod store;
pub mod laws;
pub mod shared;
pub mod consumer;
