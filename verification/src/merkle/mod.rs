//! Merkle-tree reconciliation: the tree itself and the decisions of a session.

pub mod messages;
pub mod session;
pub mod tree;
