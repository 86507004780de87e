//! The ribbon-filter pre-pass protocol followed by rateless IBLT reconciliation.

pub mod codec;
pub mod messages;
pub mod session;
