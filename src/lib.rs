//! Replication engine for a directory of small text notes kept in step
//! between an authoritative origin and a mirror.

pub mod model;
pub mod codec;
pub mod sync;
