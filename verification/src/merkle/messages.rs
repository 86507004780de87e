//! The messages of Merkle-tree reconciliation.

use vstd::prelude::*;

use crate::wire::{Message, MessageType, MessageTypeValues};

use crate::merkle::session::MerkleNodeAnswer;

verus! {

/// The body of a Merkle reconciliation message.
#[derive(Debug, Clone)]
pub enum MerkleTreeMessageWrapper {
    SyncRoot([u8; 32]),
    /// Request id and the node ids whose fingerprints are asked for (one tree level).
    SyncNodeRequest(u64, Vec<String>),
    /// Request id and the fingerprint of each node asked for.
    SyncNodeResponse(u64, Vec<MerkleNodeAnswer>),
    /// Request id and the keys whose values are asked for.
    DataRequest(u64, Vec<String>),
    /// Request id and the pairs for the keys that are present.
    DataResponse(u64, Vec<(String, String)>),
}

/// The kinds of message the protocol exchanges.
#[derive(Debug, Clone, Copy, PartialEq, Eq, Structural)]
pub enum MerkleTreeMessageTypeValues {
    SyncRoot,
    SyncNodeRequest,
    SyncNodeResponse,
    DataRequest,
    DataResponse,
}

/// The kind tag a message carries.
#[derive(Debug, Clone, Copy, PartialEq, Eq, Structural)]
pub struct MerkleTreeMessageType {
    value: MerkleTreeMessageTypeValues,
}

impl MerkleTreeMessageType {
    pub closed spec fn spec_value(&self) -> MerkleTreeMessageTypeValues {
        self.value
    }

    pub fn new(value: MerkleTreeMessageTypeValues) -> (res: Self)
        ensures
            res.spec_value() == value,
    {
        MerkleTreeMessageType { value }
    }
}

impl MessageTypeValues for MerkleTreeMessageTypeValues {}

impl MessageType for MerkleTreeMessageType {
    type Values = MerkleTreeMessageTypeValues;

    /// The kind of message.
    fn value(&self) -> (res: MerkleTreeMessageTypeValues)
        ensures
            res == self.spec_value(),
    {
        self.value
    }
}

/// A Merkle reconciliation message of one session.
#[derive(Debug, Clone)]
pub struct MerkleTreeMessage {
    protocol_id: Option<u64>,
    _type: MerkleTreeMessageType,
    session_id: String,
    wrapper: MerkleTreeMessageWrapper,
}

impl MerkleTreeMessage {
    pub closed spec fn spec_protocol_id(&self) -> Option<u64> {
        self.protocol_id
    }

    pub closed spec fn spec_type(&self) -> MerkleTreeMessageType {
        self._type
    }

    pub closed spec fn spec_session_id(&self) -> String {
        self.session_id
    }

    pub closed spec fn spec_wrapper(&self) -> MerkleTreeMessageWrapper {
        self.wrapper
    }

    pub fn new(protocol_id: Option<u64>, _type: MerkleTreeMessageType, session_id: String, wrapper: MerkleTreeMessageWrapper) -> (res: Self)
        ensures
            res.spec_protocol_id() == protocol_id,
            res.spec_type() == _type,
            res.spec_session_id() == session_id,
            res.spec_wrapper() == wrapper,
    {
        MerkleTreeMessage { protocol_id, _type, session_id, wrapper }
    }

    pub fn protocol(&self) -> (res: Option<u64>)
        ensures
            res == self.spec_protocol_id(),
    {
        self.protocol_id
    }

    pub fn message_type(&self) -> (res: MerkleTreeMessageType)
        ensures
            res == self.spec_type(),
    {
        self._type
    }

    pub fn wrapper(&self) -> (res: &MerkleTreeMessageWrapper)
        ensures
            *res == self.spec_wrapper(),
    {
        &self.wrapper
    }

    pub fn session_id(&self) -> (res: &str)
        ensures
            res@ == self.spec_session_id()@,
    {
        self.session_id.as_str()
    }
}

impl Message for MerkleTreeMessage {
    type Type = MerkleTreeMessageType;

    /// Messages carry everything in their fields: the content is empty.
    fn content(&self) -> (res: Vec<u8>)
        ensures
            res@.len() == 0,
    {
        Vec::new()
    }

    fn get_type(&self) -> (res: MerkleTreeMessageType)
        ensures
            res == self.spec_type(),
    {
        self._type
    }

    fn protocol(&self) -> (res: Option<u64>)
        ensures
            res == self.spec_protocol_id(),
    {
        self.protocol_id
    }
}

/// The kind of message a body is.
pub open spec fn spec_message_type(w: MerkleTreeMessageWrapper) -> MerkleTreeMessageTypeValues {
    match w {
        MerkleTreeMessageWrapper::SyncRoot(_) => MerkleTreeMessageTypeValues::SyncRoot,
        MerkleTreeMessageWrapper::SyncNodeRequest(_, _) => MerkleTreeMessageTypeValues::SyncNodeRequest,
        MerkleTreeMessageWrapper::SyncNodeResponse(_, _) => MerkleTreeMessageTypeValues::SyncNodeResponse,
        MerkleTreeMessageWrapper::DataRequest(_, _) => MerkleTreeMessageTypeValues::DataRequest,
        MerkleTreeMessageWrapper::DataResponse(_, _) => MerkleTreeMessageTypeValues::DataResponse,
    }
}

/// Reads back incoming Merkle reconciliation messages.
pub struct MerkleTreeDeserializer {}

impl MerkleTreeDeserializer {
    pub fn new() -> (res: Self) {
        MerkleTreeDeserializer {  }
    }

    /// The kind tag that goes with a decoded body.
    pub fn message_type(&self, wrapper: &MerkleTreeMessageWrapper) -> (res: MerkleTreeMessageType)
        ensures
            res.spec_value() == spec_message_type(*wrapper),
    {
        let value = match wrapper {
            MerkleTreeMessageWrapper::SyncRoot(_) => MerkleTreeMessageTypeValues::SyncRoot,
            MerkleTreeMessageWrapper::SyncNodeRequest(_, _) => MerkleTreeMessageTypeValues::SyncNodeRequest,
            MerkleTreeMessageWrapper::SyncNodeResponse(_, _) => MerkleTreeMessageTypeValues::SyncNodeResponse,
            MerkleTreeMessageWrapper::DataRequest(_, _) => MerkleTreeMessageTypeValues::DataRequest,
            MerkleTreeMessageWrapper::DataResponse(_, _) => MerkleTreeMessageTypeValues::DataResponse,
        };
        MerkleTreeMessageType::new(value)
    }
}

} // verus!
