//! Resilience primitives for a long-running indexing node: retrying an
//! unreliable operation under a policy with capped exponential backoff, and
//! exact statistics over a moving time window kept in bounded memory.

pub mod backoff;
pub mod history;
pub mod link;
pub mod retry;
pub mod stats;
pub mod time;
