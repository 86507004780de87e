//! The Bloom-filter-then-RIBLT protocol: its messages and session decisions.

pub mod messages;
pub mod session;
