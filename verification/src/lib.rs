//! Set reconciliation between key-value replicas: ribbon and Bloom filters,
//! Merkle trees, wire framing and the decision logic of the protocols.

pub mod bitvec_specs;
pub mod bloom;
pub mod bytes;
pub mod connection;
pub mod dsl;
pub mod kv;
pub mod merkle;
pub mod protocols;
pub mod rbf;
pub mod rf;
pub mod ribbon;
pub mod std_hash;
pub mod wire;
