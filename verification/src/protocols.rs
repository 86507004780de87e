//! The protocol shells around the reconciliation logic: deserializers that cut
//! the packet header off, the membership protocol, the similarity detector and
//! the default node configuration.

use vstd::prelude::*;

use crate::connection::{NodeAddress, TestMessage, TestMessageType};
use crate::wire::{parse_message_packet, ProtocolIDGenerator};
use std::sync::Arc;

verus! {

/// Reads a protocol's messages back from the bytes of a packet.
pub trait ProtocolDeserializer {
    type Message;

    fn deserialize(&self, bytes: Vec<u8>) -> Self::Message;
}

/// The body of a packet, after its 16-byte header; `None` when it is shorter.
pub fn packet_payload(bytes: &[u8]) -> (res: Option<Vec<u8>>)
    ensures
        bytes@.len() < 16 <==> res is None,
        res matches Some(body) ==> body@ == bytes@.subrange(16, bytes@.len() as int),
{
    match parse_message_packet(bytes) {
        Some((_, body)) => Some(body),
        None => None,
    }
}

/// Reads back incoming Bloom-filter-then-RIBLT messages.
pub struct RbfRibltDeserializer {}

impl RbfRibltDeserializer {
    pub fn new() -> (res: Self) {
        RbfRibltDeserializer {  }
    }

    /// The encoded message that follows the header, or `None` for a packet too
    /// short to hold a header (answered with an empty message).
    pub fn payload(&self, bytes: &[u8]) -> (res: Option<Vec<u8>>)
        ensures
            bytes@.len() < 16 <==> res is None,
            res matches Some(body) ==> body@ == bytes@.subrange(16, bytes@.len() as int),
    {
        packet_payload(bytes)
    }
}

/// Reads back incoming ribbon-filter-then-RIBLT messages.
pub struct RfRibltDeserializer {}

impl RfRibltDeserializer {
    pub fn new() -> (res: Self) {
        RfRibltDeserializer {  }
    }

    /// The encoded message that follows the header, or `None` for a packet too
    /// short to hold a header (answered with an empty message).
    pub fn payload(&self, bytes: &[u8]) -> (res: Option<Vec<u8>>)
        ensures
            bytes@.len() < 16 <==> res is None,
            res matches Some(body) ==> body@ == bytes@.subrange(16, bytes@.len() as int),
    {
        packet_payload(bytes)
    }
}

/// The deserializer of the hybrid protocol, which has no messages of its own.
pub struct HybridReconciliationProtocolDeserializer {}

impl HybridReconciliationProtocolDeserializer {
    pub fn new() -> (res: Self) {
        HybridReconciliationProtocolDeserializer {  }
    }

}

impl ProtocolDeserializer for HybridReconciliationProtocolDeserializer {
    type Message = TestMessage;

    /// Every packet reads as the empty placeholder message.
    fn deserialize(&self, bytes: Vec<u8>) -> (res: TestMessage)
        ensures
            res.spec_protocol() is None,
    {
        TestMessage::new(Arc::new(TestMessageType::new()), None)
    }
}

/// The deserializer of the membership protocol.
pub struct DefaultMembershipProtocolDeserializer {}

impl DefaultMembershipProtocolDeserializer {
    pub fn new() -> (res: Self) {
        DefaultMembershipProtocolDeserializer {  }
    }

}

impl ProtocolDeserializer for DefaultMembershipProtocolDeserializer {
    type Message = TestMessage;

    /// Every packet reads as the empty placeholder message.
    fn deserialize(&self, bytes: Vec<u8>) -> (res: TestMessage)
        ensures
            res.spec_protocol() is None,
    {
        TestMessage::new(Arc::new(TestMessageType::new()), None)
    }
}

/// The membership protocol: a random id and its deserializer.
pub struct DefaultMembershipProtocol {
    id: u64,
    deserializer: Arc<DefaultMembershipProtocolDeserializer>,
}

impl DefaultMembershipProtocol {
    pub closed spec fn spec_id(&self) -> u64 {
        self.id
    }

    /// A membership protocol under a freshly drawn random id.
    pub fn new() -> (res: Self) {
        DefaultMembershipProtocol {
            id: ProtocolIDGenerator::generate(),
            deserializer: Arc::new(DefaultMembershipProtocolDeserializer::new()),
        }
    }

    pub fn id(&self) -> (res: u64)
        ensures
            res == self.spec_id(),
    {
        self.id
    }
}

/// How similar two replicas are.
#[derive(Debug, Clone, Copy, PartialEq, Eq, Structural)]
pub enum DefaultSimilarityLevel {
    Low,
    Medium,
    High,
}

/// A degree of similarity.
pub trait SimilarityLevelDegree<D> {
    fn degree(&self) -> D;
}

/// Estimates how similar two replicas are.
pub trait SimilarityLevelDetector<D> {
    fn degree(&self) -> D;
}

pub struct DefaultSimilartyLevelDetector {}

impl DefaultSimilartyLevelDetector {
    pub fn new() -> (res: Self) {
        DefaultSimilartyLevelDetector {  }
    }
}

impl SimilarityLevelDetector<DefaultSimilarityLevel> for DefaultSimilartyLevelDetector {
    /// The default detector always reports low similarity.
    fn degree(&self) -> (res: DefaultSimilarityLevel)
        ensures
            res == DefaultSimilarityLevel::Low,
    {
        DefaultSimilarityLevel::Low
    }
}

/// A node's configuration: the neighbours it starts with.
pub trait NodeConfig<N> {
    fn neighbors(&self) -> N;
}

pub struct DefaultNodeConfig {}

impl DefaultNodeConfig {
    pub fn new() -> (res: Self) {
        DefaultNodeConfig {  }
    }
}

impl NodeConfig<Vec<(String, NodeAddress)>> for DefaultNodeConfig {
    /// Two neighbours on the local host: `node9000` on port 9000 and `node9001`
    /// on port 9001.
    fn neighbors(&self) -> (res: Vec<(String, NodeAddress)>)
        ensures
            res@.len() == 2,
            res@[0].0@ == "node9000"@,
            res@[0].1.spec_host() == "127.0.0.1"@,
            res@[0].1.spec_port() == 9000,
            res@[1].0@ == "node9001"@,
            res@[1].1.spec_host() == "127.0.0.1"@,
            res@[1].1.spec_port() == 9001,
    {
        let mut v: Vec<(String, NodeAddress)> = Vec::new();
        v.push(("node9000".to_owned(), NodeAddress::new("127.0.0.1".to_owned(), 9000)));
        v.push(("node9001".to_owned(), NodeAddress::new("127.0.0.1".to_owned(), 9001)));
        v
    }
}

} // verus!
