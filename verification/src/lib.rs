//! An HTTP response cache: cache keys, freshness policies, storage backends
//! with secondary indices, and the per-request decision protocol that ties
//! them together.
//!
//! Times are whole seconds since the Unix epoch and are always passed in by
//! the caller; nothing here reads a clock.

pub mod entry;
pub mod indexed;
pub mod key;
pub mod manager;
pub mod message;
pub mod middleware;
pub mod policy;
pub mod tags;
