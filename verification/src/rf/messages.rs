//! The messages of the ribbon-filter-then-RIBLT protocol.

use vstd::prelude::*;

use crate::wire::{Message, MessageType, MessageTypeValues};

use crate::rbf::messages::RbfRibltCodedSymbol;

verus! {

/// A coded symbol of the rateless IBLT exchange.
pub type RfRibltCodedSymbol = RbfRibltCodedSymbol;

/// The kinds of message the protocol exchanges.
#[derive(Debug, Clone, Copy, PartialEq, Eq, Structural)]
pub enum RfRibltMessageTypeValues {
    Handshake,
    FilterChunk,
    FilterDone,
    SComSendSymbol,
    SComDecodedAll,
    SComRequestMoreSymbols,
    ValueFetchRequest,
    ValueFetchResponse,
}

/// The kind tag a message carries.
#[derive(Debug, Clone, Copy, PartialEq, Eq, Structural)]
pub struct RfRibltMessageType {
    value: RfRibltMessageTypeValues,
}

impl RfRibltMessageType {
    pub closed spec fn spec_value(&self) -> RfRibltMessageTypeValues {
        self.value
    }

    pub fn new(value: RfRibltMessageTypeValues) -> (res: Self)
        ensures
            res.spec_value() == value,
    {
        RfRibltMessageType { value }
    }
}

impl MessageTypeValues for RfRibltMessageTypeValues {}

impl MessageType for RfRibltMessageType {
    type Values = RfRibltMessageTypeValues;

    /// The kind of message.
    fn value(&self) -> (res: RfRibltMessageTypeValues)
        ensures
            res == self.spec_value(),
    {
        self.value
    }
}

/// Sent once per direction; carries the whole serialized ribbon filter.
#[derive(Debug, Clone)]
pub struct RfRibltHandshakeMessage {
    _type: RfRibltMessageType,
    protocol_id: Option<u64>,
    pub session_id: String,
    pub ribbon_seed: u64,
    pub filter_bytes: Vec<u8>,
}

impl RfRibltHandshakeMessage {
    pub closed spec fn spec_type(&self) -> RfRibltMessageType {
        self._type
    }

    pub closed spec fn spec_protocol_id(&self) -> Option<u64> {
        self.protocol_id
    }

    pub closed spec fn spec_session_id(&self) -> String {
        self.session_id
    }

    pub closed spec fn spec_ribbon_seed(&self) -> u64 {
        self.ribbon_seed
    }

    pub closed spec fn spec_filter_bytes(&self) -> Vec<u8> {
        self.filter_bytes
    }

    pub fn new(protocol_id: Option<u64>, session_id: String, ribbon_seed: u64, filter_bytes: Vec<u8>) -> (res: Self)
        ensures
            res.spec_protocol_id() == protocol_id,
            res.spec_session_id() == session_id,
            res.spec_ribbon_seed() == ribbon_seed,
            res.spec_filter_bytes() == filter_bytes,
            res.spec_type().spec_value() == RfRibltMessageTypeValues::Handshake,
    {
        RfRibltHandshakeMessage { _type: RfRibltMessageType::new(RfRibltMessageTypeValues::Handshake), protocol_id, session_id, ribbon_seed, filter_bytes }
    }

    pub fn protocol(&self) -> (res: Option<u64>)
        ensures
            res == self.spec_protocol_id(),
    {
        self.protocol_id
    }

    pub fn message_type(&self) -> (res: RfRibltMessageType)
        ensures
            res == self.spec_type(),
    {
        self._type
    }

    pub fn session_id(&self) -> (res: &String)
        ensures
            *res == self.spec_session_id(),
    {
        &self.session_id
    }

    pub fn ribbon_seed(&self) -> (res: u64)
        ensures
            res == self.spec_ribbon_seed(),
    {
        self.ribbon_seed
    }

    pub fn filter_bytes(&self) -> (res: &Vec<u8>)
        ensures
            *res == self.spec_filter_bytes(),
    {
        &self.filter_bytes
    }
}

impl Message for RfRibltHandshakeMessage {
    type Type = RfRibltMessageType;

    /// Messages carry everything in their fields: the content is empty.
    fn content(&self) -> (res: Vec<u8>)
        ensures
            res@.len() == 0,
    {
        Vec::new()
    }

    fn get_type(&self) -> (res: RfRibltMessageType)
        ensures
            res == self.spec_type(),
    {
        self._type
    }

    fn protocol(&self) -> (res: Option<u64>)
        ensures
            res == self.spec_protocol_id(),
    {
        self.protocol_id
    }
}

/// One chunk of the serialized ribbon filter.
#[derive(Debug, Clone)]
pub struct RfRibltFilterChunkMessage {
    _type: RfRibltMessageType,
    protocol_id: Option<u64>,
    pub session_id: String,
    pub chunk_index: u64,
    pub data: Vec<u8>,
}

impl RfRibltFilterChunkMessage {
    pub closed spec fn spec_type(&self) -> RfRibltMessageType {
        self._type
    }

    pub closed spec fn spec_protocol_id(&self) -> Option<u64> {
        self.protocol_id
    }

    pub closed spec fn spec_session_id(&self) -> String {
        self.session_id
    }

    pub closed spec fn spec_chunk_index(&self) -> u64 {
        self.chunk_index
    }

    pub closed spec fn spec_data(&self) -> Vec<u8> {
        self.data
    }

    pub fn new(protocol_id: Option<u64>, session_id: String, chunk_index: u64, data: Vec<u8>) -> (res: Self)
        ensures
            res.spec_protocol_id() == protocol_id,
            res.spec_session_id() == session_id,
            res.spec_chunk_index() == chunk_index,
            res.spec_data() == data,
            res.spec_type().spec_value() == RfRibltMessageTypeValues::FilterChunk,
    {
        RfRibltFilterChunkMessage { _type: RfRibltMessageType::new(RfRibltMessageTypeValues::FilterChunk), protocol_id, session_id, chunk_index, data }
    }

    pub fn protocol(&self) -> (res: Option<u64>)
        ensures
            res == self.spec_protocol_id(),
    {
        self.protocol_id
    }

    pub fn message_type(&self) -> (res: RfRibltMessageType)
        ensures
            res == self.spec_type(),
    {
        self._type
    }

    pub fn session_id(&self) -> (res: &String)
        ensures
            *res == self.spec_session_id(),
    {
        &self.session_id
    }

    pub fn chunk_index(&self) -> (res: u64)
        ensures
            res == self.spec_chunk_index(),
    {
        self.chunk_index
    }

    pub fn data(&self) -> (res: &Vec<u8>)
        ensures
            *res == self.spec_data(),
    {
        &self.data
    }
}

impl Message for RfRibltFilterChunkMessage {
    type Type = RfRibltMessageType;

    /// Messages carry everything in their fields: the content is empty.
    fn content(&self) -> (res: Vec<u8>)
        ensures
            res@.len() == 0,
    {
        Vec::new()
    }

    fn get_type(&self) -> (res: RfRibltMessageType)
        ensures
            res == self.spec_type(),
    {
        self._type
    }

    fn protocol(&self) -> (res: Option<u64>)
        ensures
            res == self.spec_protocol_id(),
    {
        self.protocol_id
    }
}

/// Sent after every chunk was delivered.
#[derive(Debug, Clone)]
pub struct RfRibltFilterDoneMessage {
    _type: RfRibltMessageType,
    protocol_id: Option<u64>,
    pub session_id: String,
}

impl RfRibltFilterDoneMessage {
    pub closed spec fn spec_type(&self) -> RfRibltMessageType {
        self._type
    }

    pub closed spec fn spec_protocol_id(&self) -> Option<u64> {
        self.protocol_id
    }

    pub closed spec fn spec_session_id(&self) -> String {
        self.session_id
    }

    pub fn new(protocol_id: Option<u64>, session_id: String) -> (res: Self)
        ensures
            res.spec_protocol_id() == protocol_id,
            res.spec_session_id() == session_id,
            res.spec_type().spec_value() == RfRibltMessageTypeValues::FilterDone,
    {
        RfRibltFilterDoneMessage { _type: RfRibltMessageType::new(RfRibltMessageTypeValues::FilterDone), protocol_id, session_id }
    }

    pub fn protocol(&self) -> (res: Option<u64>)
        ensures
            res == self.spec_protocol_id(),
    {
        self.protocol_id
    }

    pub fn message_type(&self) -> (res: RfRibltMessageType)
        ensures
            res == self.spec_type(),
    {
        self._type
    }

    pub fn session_id(&self) -> (res: &String)
        ensures
            *res == self.spec_session_id(),
    {
        &self.session_id
    }
}

impl Message for RfRibltFilterDoneMessage {
    type Type = RfRibltMessageType;

    /// Messages carry everything in their fields: the content is empty.
    fn content(&self) -> (res: Vec<u8>)
        ensures
            res@.len() == 0,
    {
        Vec::new()
    }

    fn get_type(&self) -> (res: RfRibltMessageType)
        ensures
            res == self.spec_type(),
    {
        self._type
    }

    fn protocol(&self) -> (res: Option<u64>)
        ensures
            res == self.spec_protocol_id(),
    {
        self.protocol_id
    }
}

/// A batch of coded symbols over the candidate set.
#[derive(Debug, Clone)]
pub struct RfRibltSComSendSymbolMessage {
    _type: RfRibltMessageType,
    protocol_id: Option<u64>,
    pub symbols: Vec<RfRibltCodedSymbol>,
    pub session_id: String,
}

impl RfRibltSComSendSymbolMessage {
    pub closed spec fn spec_type(&self) -> RfRibltMessageType {
        self._type
    }

    pub closed spec fn spec_protocol_id(&self) -> Option<u64> {
        self.protocol_id
    }

    pub closed spec fn spec_symbols(&self) -> Vec<RfRibltCodedSymbol> {
        self.symbols
    }

    pub closed spec fn spec_session_id(&self) -> String {
        self.session_id
    }

    pub fn new(protocol_id: Option<u64>, symbols: Vec<RfRibltCodedSymbol>, session_id: String) -> (res: Self)
        ensures
            res.spec_protocol_id() == protocol_id,
            res.spec_symbols() == symbols,
            res.spec_session_id() == session_id,
            res.spec_type().spec_value() == RfRibltMessageTypeValues::SComSendSymbol,
    {
        RfRibltSComSendSymbolMessage { _type: RfRibltMessageType::new(RfRibltMessageTypeValues::SComSendSymbol), protocol_id, symbols, session_id }
    }

    pub fn protocol(&self) -> (res: Option<u64>)
        ensures
            res == self.spec_protocol_id(),
    {
        self.protocol_id
    }

    pub fn message_type(&self) -> (res: RfRibltMessageType)
        ensures
            res == self.spec_type(),
    {
        self._type
    }

    pub fn symbols(&self) -> (res: &Vec<RfRibltCodedSymbol>)
        ensures
            *res == self.spec_symbols(),
    {
        &self.symbols
    }

    pub fn session_id(&self) -> (res: &String)
        ensures
            *res == self.spec_session_id(),
    {
        &self.session_id
    }
}

impl Message for RfRibltSComSendSymbolMessage {
    type Type = RfRibltMessageType;

    /// Messages carry everything in their fields: the content is empty.
    fn content(&self) -> (res: Vec<u8>)
        ensures
            res@.len() == 0,
    {
        Vec::new()
    }

    fn get_type(&self) -> (res: RfRibltMessageType)
        ensures
            res == self.spec_type(),
    {
        self._type
    }

    fn protocol(&self) -> (res: Option<u64>)
        ensures
            res == self.spec_protocol_id(),
    {
        self.protocol_id
    }
}

/// The receiver decoded the whole difference; names the keys the sender lacks.
#[derive(Debug, Clone)]
pub struct RfRibltSComDecodedAllMessage {
    _type: RfRibltMessageType,
    protocol_id: Option<u64>,
    pub session_id: String,
    pub keys_for_sender: Vec<String>,
}

impl RfRibltSComDecodedAllMessage {
    pub closed spec fn spec_type(&self) -> RfRibltMessageType {
        self._type
    }

    pub closed spec fn spec_protocol_id(&self) -> Option<u64> {
        self.protocol_id
    }

    pub closed spec fn spec_session_id(&self) -> String {
        self.session_id
    }

    pub closed spec fn spec_keys_for_sender(&self) -> Vec<String> {
        self.keys_for_sender
    }

    pub fn new(protocol_id: Option<u64>, session_id: String, keys_for_sender: Vec<String>) -> (res: Self)
        ensures
            res.spec_protocol_id() == protocol_id,
            res.spec_session_id() == session_id,
            res.spec_keys_for_sender() == keys_for_sender,
            res.spec_type().spec_value() == RfRibltMessageTypeValues::SComDecodedAll,
    {
        RfRibltSComDecodedAllMessage { _type: RfRibltMessageType::new(RfRibltMessageTypeValues::SComDecodedAll), protocol_id, session_id, keys_for_sender }
    }

    pub fn protocol(&self) -> (res: Option<u64>)
        ensures
            res == self.spec_protocol_id(),
    {
        self.protocol_id
    }

    pub fn message_type(&self) -> (res: RfRibltMessageType)
        ensures
            res == self.spec_type(),
    {
        self._type
    }

    pub fn session_id(&self) -> (res: &String)
        ensures
            *res == self.spec_session_id(),
    {
        &self.session_id
    }

    pub fn keys_for_sender(&self) -> (res: &Vec<String>)
        ensures
            *res == self.spec_keys_for_sender(),
    {
        &self.keys_for_sender
    }
}

impl Message for RfRibltSComDecodedAllMessage {
    type Type = RfRibltMessageType;

    /// Messages carry everything in their fields: the content is empty.
    fn content(&self) -> (res: Vec<u8>)
        ensures
            res@.len() == 0,
    {
        Vec::new()
    }

    fn get_type(&self) -> (res: RfRibltMessageType)
        ensures
            res == self.spec_type(),
    {
        self._type
    }

    fn protocol(&self) -> (res: Option<u64>)
        ensures
            res == self.spec_protocol_id(),
    {
        self.protocol_id
    }
}

/// The receiver needs more coded symbols.
#[derive(Debug, Clone)]
pub struct RfRibltSComRequestMoreSymbolsMessage {
    _type: RfRibltMessageType,
    protocol_id: Option<u64>,
    pub session_id: String,
}

impl RfRibltSComRequestMoreSymbolsMessage {
    pub closed spec fn spec_type(&self) -> RfRibltMessageType {
        self._type
    }

    pub closed spec fn spec_protocol_id(&self) -> Option<u64> {
        self.protocol_id
    }

    pub closed spec fn spec_session_id(&self) -> String {
        self.session_id
    }

    pub fn new(protocol_id: Option<u64>, session_id: String) -> (res: Self)
        ensures
            res.spec_protocol_id() == protocol_id,
            res.spec_session_id() == session_id,
            res.spec_type().spec_value() == RfRibltMessageTypeValues::SComRequestMoreSymbols,
    {
        RfRibltSComRequestMoreSymbolsMessage { _type: RfRibltMessageType::new(RfRibltMessageTypeValues::SComRequestMoreSymbols), protocol_id, session_id }
    }

    pub fn protocol(&self) -> (res: Option<u64>)
        ensures
            res == self.spec_protocol_id(),
    {
        self.protocol_id
    }

    pub fn message_type(&self) -> (res: RfRibltMessageType)
        ensures
            res == self.spec_type(),
    {
        self._type
    }

    pub fn session_id(&self) -> (res: &String)
        ensures
            *res == self.spec_session_id(),
    {
        &self.session_id
    }
}

impl Message for RfRibltSComRequestMoreSymbolsMessage {
    type Type = RfRibltMessageType;

    /// Messages carry everything in their fields: the content is empty.
    fn content(&self) -> (res: Vec<u8>)
        ensures
            res@.len() == 0,
    {
        Vec::new()
    }

    fn get_type(&self) -> (res: RfRibltMessageType)
        ensures
            res == self.spec_type(),
    {
        self._type
    }

    fn protocol(&self) -> (res: Option<u64>)
        ensures
            res == self.spec_protocol_id(),
    {
        self.protocol_id
    }
}

/// Asks for the values of some keys.
#[derive(Debug, Clone)]
pub struct RfRibltValueFetchRequestMessage {
    _type: RfRibltMessageType,
    protocol_id: Option<u64>,
    pub session_id: String,
    pub keys: Vec<String>,
}

impl RfRibltValueFetchRequestMessage {
    pub closed spec fn spec_type(&self) -> RfRibltMessageType {
        self._type
    }

    pub closed spec fn spec_protocol_id(&self) -> Option<u64> {
        self.protocol_id
    }

    pub closed spec fn spec_session_id(&self) -> String {
        self.session_id
    }

    pub closed spec fn spec_keys(&self) -> Vec<String> {
        self.keys
    }

    pub fn new(protocol_id: Option<u64>, session_id: String, keys: Vec<String>) -> (res: Self)
        ensures
            res.spec_protocol_id() == protocol_id,
            res.spec_session_id() == session_id,
            res.spec_keys() == keys,
            res.spec_type().spec_value() == RfRibltMessageTypeValues::ValueFetchRequest,
    {
        RfRibltValueFetchRequestMessage { _type: RfRibltMessageType::new(RfRibltMessageTypeValues::ValueFetchRequest), protocol_id, session_id, keys }
    }

    pub fn protocol(&self) -> (res: Option<u64>)
        ensures
            res == self.spec_protocol_id(),
    {
        self.protocol_id
    }

    pub fn message_type(&self) -> (res: RfRibltMessageType)
        ensures
            res == self.spec_type(),
    {
        self._type
    }

    pub fn session_id(&self) -> (res: &String)
        ensures
            *res == self.spec_session_id(),
    {
        &self.session_id
    }

    pub fn keys(&self) -> (res: &Vec<String>)
        ensures
            *res == self.spec_keys(),
    {
        &self.keys
    }
}

impl Message for RfRibltValueFetchRequestMessage {
    type Type = RfRibltMessageType;

    /// Messages carry everything in their fields: the content is empty.
    fn content(&self) -> (res: Vec<u8>)
        ensures
            res@.len() == 0,
    {
        Vec::new()
    }

    fn get_type(&self) -> (res: RfRibltMessageType)
        ensures
            res == self.spec_type(),
    {
        self._type
    }

    fn protocol(&self) -> (res: Option<u64>)
        ensures
            res == self.spec_protocol_id(),
    {
        self.protocol_id
    }
}

/// A key with its value.
#[derive(Debug, Clone)]
pub struct RfRibltFetchedEntry {
    pub key: String,
    pub value: String,
}

impl RfRibltFetchedEntry {
    pub open spec fn spec_key(&self) -> String {
        self.key
    }

    pub open spec fn spec_value(&self) -> String {
        self.value
    }

    pub fn new(key: String, value: String) -> (res: Self)
        ensures
            res.spec_key() == key,
            res.spec_value() == value,
    {
        RfRibltFetchedEntry { key, value }
    }
}

/// The values asked for, with those the asker lacks.
#[derive(Debug, Clone)]
pub struct RfRibltValueFetchResponseMessage {
    _type: RfRibltMessageType,
    protocol_id: Option<u64>,
    pub session_id: String,
    pub entries: Vec<RfRibltFetchedEntry>,
}

impl RfRibltValueFetchResponseMessage {
    pub closed spec fn spec_type(&self) -> RfRibltMessageType {
        self._type
    }

    pub closed spec fn spec_protocol_id(&self) -> Option<u64> {
        self.protocol_id
    }

    pub closed spec fn spec_session_id(&self) -> String {
        self.session_id
    }

    pub closed spec fn spec_entries(&self) -> Vec<RfRibltFetchedEntry> {
        self.entries
    }

    pub fn new(protocol_id: Option<u64>, session_id: String, entries: Vec<RfRibltFetchedEntry>) -> (res: Self)
        ensures
            res.spec_protocol_id() == protocol_id,
            res.spec_session_id() == session_id,
            res.spec_entries() == entries,
            res.spec_type().spec_value() == RfRibltMessageTypeValues::ValueFetchResponse,
    {
        RfRibltValueFetchResponseMessage { _type: RfRibltMessageType::new(RfRibltMessageTypeValues::ValueFetchResponse), protocol_id, session_id, entries }
    }

    pub fn protocol(&self) -> (res: Option<u64>)
        ensures
            res == self.spec_protocol_id(),
    {
        self.protocol_id
    }

    pub fn message_type(&self) -> (res: RfRibltMessageType)
        ensures
            res == self.spec_type(),
    {
        self._type
    }

    pub fn session_id(&self) -> (res: &String)
        ensures
            *res == self.spec_session_id(),
    {
        &self.session_id
    }

    pub fn entries(&self) -> (res: &Vec<RfRibltFetchedEntry>)
        ensures
            *res == self.spec_entries(),
    {
        &self.entries
    }
}

impl Message for RfRibltValueFetchResponseMessage {
    type Type = RfRibltMessageType;

    /// Messages carry everything in their fields: the content is empty.
    fn content(&self) -> (res: Vec<u8>)
        ensures
            res@.len() == 0,
    {
        Vec::new()
    }

    fn get_type(&self) -> (res: RfRibltMessageType)
        ensures
            res == self.spec_type(),
    {
        self._type
    }

    fn protocol(&self) -> (res: Option<u64>)
        ensures
            res == self.spec_protocol_id(),
    {
        self.protocol_id
    }
}

/// Any message of the protocol, as it travels on the wire.
#[derive(Debug, Clone)]
pub enum RfRibltMessageWrapper {
    Handshake(RfRibltHandshakeMessage),
    FilterChunk(RfRibltFilterChunkMessage),
    FilterDone(RfRibltFilterDoneMessage),
    SComSendSymbol(RfRibltSComSendSymbolMessage),
    SComDecodedAll(RfRibltSComDecodedAllMessage),
    SComRequestMoreSymbols(RfRibltSComRequestMoreSymbolsMessage),
    ValueFetchRequest(RfRibltValueFetchRequestMessage),
    ValueFetchResponse(RfRibltValueFetchResponseMessage),
}

} // verus!
