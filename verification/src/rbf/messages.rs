//! The messages of the Bloom-filter-then-RIBLT protocol.

use vstd::prelude::*;

use crate::wire::{Message, MessageType, MessageTypeValues};

verus! {

/// The kinds of message the protocol exchanges.
#[derive(Debug, Clone, Copy, PartialEq, Eq, Structural)]
pub enum RbfRibltMessageTypeValues {
    Handshake,
    BloomFilterSlice,
    SComSendSymbol,
    SComDecodedAll,
    SComRequestMoreSymbols,
    ValueFetchRequest,
    ValueFetchResponse,
}

/// The kind tag a message carries.
#[derive(Debug, Clone, Copy, PartialEq, Eq, Structural)]
pub struct RbfRibltMessageType {
    value: RbfRibltMessageTypeValues,
}

impl RbfRibltMessageType {
    pub closed spec fn spec_value(&self) -> RbfRibltMessageTypeValues {
        self.value
    }

    pub fn new(value: RbfRibltMessageTypeValues) -> (res: Self)
        ensures
            res.spec_value() == value,
    {
        RbfRibltMessageType { value }
    }
}

impl MessageTypeValues for RbfRibltMessageTypeValues {}

impl MessageType for RbfRibltMessageType {
    type Values = RbfRibltMessageTypeValues;

    /// The kind of message.
    fn value(&self) -> (res: RbfRibltMessageTypeValues)
        ensures
            res == self.spec_value(),
    {
        self.value
    }
}

/// Opens a session.
#[derive(Debug, Clone)]
pub struct RbfRibltHandshakeMessage {
    _type: RbfRibltMessageType,
    protocol_id: Option<u64>,
    session_id: String,
}

impl RbfRibltHandshakeMessage {
    pub closed spec fn spec_type(&self) -> RbfRibltMessageType {
        self._type
    }

    pub closed spec fn spec_protocol_id(&self) -> Option<u64> {
        self.protocol_id
    }

    pub closed spec fn spec_session_id(&self) -> String {
        self.session_id
    }

    pub fn new(_type: RbfRibltMessageType, protocol_id: Option<u64>, session_id: String) -> (res: Self)
        ensures
            res.spec_type() == _type,
            res.spec_protocol_id() == protocol_id,
            res.spec_session_id() == session_id,
    {
        RbfRibltHandshakeMessage { _type, protocol_id, session_id }
    }

    pub fn protocol(&self) -> (res: Option<u64>)
        ensures
            res == self.spec_protocol_id(),
    {
        self.protocol_id
    }

    pub fn message_type(&self) -> (res: RbfRibltMessageType)
        ensures
            res == self.spec_type(),
    {
        self._type
    }

    pub fn session_id(&self) -> (res: &str)
        ensures
            res@ == self.spec_session_id()@,
    {
        self.session_id.as_str()
    }
}

impl Message for RbfRibltHandshakeMessage {
    type Type = RbfRibltMessageType;

    /// Messages carry everything in their fields: the content is empty.
    fn content(&self) -> (res: Vec<u8>)
        ensures
            res@.len() == 0,
    {
        Vec::new()
    }

    fn get_type(&self) -> (res: RbfRibltMessageType)
        ensures
            res == self.spec_type(),
    {
        self._type
    }

    fn protocol(&self) -> (res: Option<u64>)
        ensures
            res == self.spec_protocol_id(),
    {
        self.protocol_id
    }
}

/// One Bloom filter slice over the sender's keys.
#[derive(Debug, Clone)]
pub struct RbfRibltBloomFilterSliceMessage {
    _type: RbfRibltMessageType,
    protocol_id: Option<u64>,
    session_id: String,
    slice_index: u64,
    m: usize,
    k: u64,
    seeds: [u64; 2],
    bits: Vec<u8>,
}

impl RbfRibltBloomFilterSliceMessage {
    pub closed spec fn spec_type(&self) -> RbfRibltMessageType {
        self._type
    }

    pub closed spec fn spec_protocol_id(&self) -> Option<u64> {
        self.protocol_id
    }

    pub closed spec fn spec_session_id(&self) -> String {
        self.session_id
    }

    pub closed spec fn spec_slice_index(&self) -> u64 {
        self.slice_index
    }

    pub closed spec fn spec_m(&self) -> usize {
        self.m
    }

    pub closed spec fn spec_k(&self) -> u64 {
        self.k
    }

    pub closed spec fn spec_seeds(&self) -> [u64; 2] {
        self.seeds
    }

    pub closed spec fn spec_bits(&self) -> Vec<u8> {
        self.bits
    }

    pub fn new(protocol_id: Option<u64>, session_id: String, slice_index: u64, m: usize, k: u64, seeds: [u64; 2], bits: Vec<u8>) -> (res: Self)
        ensures
            res.spec_protocol_id() == protocol_id,
            res.spec_session_id() == session_id,
            res.spec_slice_index() == slice_index,
            res.spec_m() == m,
            res.spec_k() == k,
            res.spec_seeds() == seeds,
            res.spec_bits() == bits,
            res.spec_type().spec_value() == RbfRibltMessageTypeValues::BloomFilterSlice,
    {
        RbfRibltBloomFilterSliceMessage { _type: RbfRibltMessageType::new(RbfRibltMessageTypeValues::BloomFilterSlice), protocol_id, session_id, slice_index, m, k, seeds, bits }
    }

    pub fn protocol(&self) -> (res: Option<u64>)
        ensures
            res == self.spec_protocol_id(),
    {
        self.protocol_id
    }

    pub fn message_type(&self) -> (res: RbfRibltMessageType)
        ensures
            res == self.spec_type(),
    {
        self._type
    }

    pub fn session_id(&self) -> (res: &str)
        ensures
            res@ == self.spec_session_id()@,
    {
        self.session_id.as_str()
    }

    pub fn slice_index(&self) -> (res: u64)
        ensures
            res == self.spec_slice_index(),
    {
        self.slice_index
    }

    pub fn m(&self) -> (res: usize)
        ensures
            res == self.spec_m(),
    {
        self.m
    }

    pub fn k(&self) -> (res: u64)
        ensures
            res == self.spec_k(),
    {
        self.k
    }

    pub fn seeds(&self) -> (res: [u64; 2])
        ensures
            res == self.spec_seeds(),
    {
        self.seeds
    }

    pub fn bits(&self) -> (res: &Vec<u8>)
        ensures
            *res == self.spec_bits(),
    {
        &self.bits
    }
}

impl Message for RbfRibltBloomFilterSliceMessage {
    type Type = RbfRibltMessageType;

    /// Messages carry everything in their fields: the content is empty.
    fn content(&self) -> (res: Vec<u8>)
        ensures
            res@.len() == 0,
    {
        Vec::new()
    }

    fn get_type(&self) -> (res: RbfRibltMessageType)
        ensures
            res == self.spec_type(),
    {
        self._type
    }

    fn protocol(&self) -> (res: Option<u64>)
        ensures
            res == self.spec_protocol_id(),
    {
        self.protocol_id
    }
}

/// A coded symbol of the rateless IBLT stream.
#[derive(Debug, Clone, PartialEq, Eq, Hash)]
pub struct RbfRibltCodedSymbol {
    pub sum: Vec<u8>,
    pub hash: u64,
    pub count: i64,
}

/// A batch of coded symbols over the candidate set.
#[derive(Debug, Clone)]
pub struct RbfRibltSComSendSymbolMessage {
    _type: RbfRibltMessageType,
    protocol_id: Option<u64>,
    symbols: Vec<RbfRibltCodedSymbol>,
    session_id: String,
}

impl RbfRibltSComSendSymbolMessage {
    pub closed spec fn spec_type(&self) -> RbfRibltMessageType {
        self._type
    }

    pub closed spec fn spec_protocol_id(&self) -> Option<u64> {
        self.protocol_id
    }

    pub closed spec fn spec_symbols(&self) -> Vec<RbfRibltCodedSymbol> {
        self.symbols
    }

    pub closed spec fn spec_session_id(&self) -> String {
        self.session_id
    }

    pub fn new(protocol_id: Option<u64>, symbols: Vec<RbfRibltCodedSymbol>, session_id: String) -> (res: Self)
        ensures
            res.spec_protocol_id() == protocol_id,
            res.spec_symbols() == symbols,
            res.spec_session_id() == session_id,
            res.spec_type().spec_value() == RbfRibltMessageTypeValues::SComSendSymbol,
    {
        RbfRibltSComSendSymbolMessage { _type: RbfRibltMessageType::new(RbfRibltMessageTypeValues::SComSendSymbol), protocol_id, symbols, session_id }
    }

    pub fn protocol(&self) -> (res: Option<u64>)
        ensures
            res == self.spec_protocol_id(),
    {
        self.protocol_id
    }

    pub fn message_type(&self) -> (res: RbfRibltMessageType)
        ensures
            res == self.spec_type(),
    {
        self._type
    }

    pub fn symbols(&self) -> (res: &Vec<RbfRibltCodedSymbol>)
        ensures
            *res == self.spec_symbols(),
    {
        &self.symbols
    }

    pub fn session_id(&self) -> (res: &String)
        ensures
            *res == self.spec_session_id(),
    {
        &self.session_id
    }
}

impl Message for RbfRibltSComSendSymbolMessage {
    type Type = RbfRibltMessageType;

    /// Messages carry everything in their fields: the content is empty.
    fn content(&self) -> (res: Vec<u8>)
        ensures
            res@.len() == 0,
    {
        Vec::new()
    }

    fn get_type(&self) -> (res: RbfRibltMessageType)
        ensures
            res == self.spec_type(),
    {
        self._type
    }

    fn protocol(&self) -> (res: Option<u64>)
        ensures
            res == self.spec_protocol_id(),
    {
        self.protocol_id
    }
}

/// The receiver decoded the whole difference.
#[derive(Debug, Clone)]
pub struct RbfRibltSComDecodedAllMessage {
    _type: RbfRibltMessageType,
    protocol_id: Option<u64>,
    session_id: String,
}

impl RbfRibltSComDecodedAllMessage {
    pub closed spec fn spec_type(&self) -> RbfRibltMessageType {
        self._type
    }

    pub closed spec fn spec_protocol_id(&self) -> Option<u64> {
        self.protocol_id
    }

    pub closed spec fn spec_session_id(&self) -> String {
        self.session_id
    }

    pub fn new(protocol_id: Option<u64>, session_id: String) -> (res: Self)
        ensures
            res.spec_protocol_id() == protocol_id,
            res.spec_session_id() == session_id,
            res.spec_type().spec_value() == RbfRibltMessageTypeValues::SComDecodedAll,
    {
        RbfRibltSComDecodedAllMessage { _type: RbfRibltMessageType::new(RbfRibltMessageTypeValues::SComDecodedAll), protocol_id, session_id }
    }

    pub fn protocol(&self) -> (res: Option<u64>)
        ensures
            res == self.spec_protocol_id(),
    {
        self.protocol_id
    }

    pub fn message_type(&self) -> (res: RbfRibltMessageType)
        ensures
            res == self.spec_type(),
    {
        self._type
    }

    pub fn session_id(&self) -> (res: &String)
        ensures
            *res == self.spec_session_id(),
    {
        &self.session_id
    }
}

impl Message for RbfRibltSComDecodedAllMessage {
    type Type = RbfRibltMessageType;

    /// Messages carry everything in their fields: the content is empty.
    fn content(&self) -> (res: Vec<u8>)
        ensures
            res@.len() == 0,
    {
        Vec::new()
    }

    fn get_type(&self) -> (res: RbfRibltMessageType)
        ensures
            res == self.spec_type(),
    {
        self._type
    }

    fn protocol(&self) -> (res: Option<u64>)
        ensures
            res == self.spec_protocol_id(),
    {
        self.protocol_id
    }
}

/// The receiver needs more coded symbols.
#[derive(Debug, Clone)]
pub struct RbfRibltSComRequestMoreSymbolsMessage {
    _type: RbfRibltMessageType,
    protocol_id: Option<u64>,
    session_id: String,
}

impl RbfRibltSComRequestMoreSymbolsMessage {
    pub closed spec fn spec_type(&self) -> RbfRibltMessageType {
        self._type
    }

    pub closed spec fn spec_protocol_id(&self) -> Option<u64> {
        self.protocol_id
    }

    pub closed spec fn spec_session_id(&self) -> String {
        self.session_id
    }

    pub fn new(protocol_id: Option<u64>, session_id: String) -> (res: Self)
        ensures
            res.spec_protocol_id() == protocol_id,
            res.spec_session_id() == session_id,
            res.spec_type().spec_value() == RbfRibltMessageTypeValues::SComRequestMoreSymbols,
    {
        RbfRibltSComRequestMoreSymbolsMessage { _type: RbfRibltMessageType::new(RbfRibltMessageTypeValues::SComRequestMoreSymbols), protocol_id, session_id }
    }

    pub fn protocol(&self) -> (res: Option<u64>)
        ensures
            res == self.spec_protocol_id(),
    {
        self.protocol_id
    }

    pub fn message_type(&self) -> (res: RbfRibltMessageType)
        ensures
            res == self.spec_type(),
    {
        self._type
    }

    pub fn session_id(&self) -> (res: &String)
        ensures
            *res == self.spec_session_id(),
    {
        &self.session_id
    }
}

impl Message for RbfRibltSComRequestMoreSymbolsMessage {
    type Type = RbfRibltMessageType;

    /// Messages carry everything in their fields: the content is empty.
    fn content(&self) -> (res: Vec<u8>)
        ensures
            res@.len() == 0,
    {
        Vec::new()
    }

    fn get_type(&self) -> (res: RbfRibltMessageType)
        ensures
            res == self.spec_type(),
    {
        self._type
    }

    fn protocol(&self) -> (res: Option<u64>)
        ensures
            res == self.spec_protocol_id(),
    {
        self.protocol_id
    }
}

/// Asks for the values of some keys.
#[derive(Debug, Clone)]
pub struct RbfRibltValueFetchRequestMessage {
    _type: RbfRibltMessageType,
    protocol_id: Option<u64>,
    session_id: String,
    keys: Vec<String>,
}

impl RbfRibltValueFetchRequestMessage {
    pub closed spec fn spec_type(&self) -> RbfRibltMessageType {
        self._type
    }

    pub closed spec fn spec_protocol_id(&self) -> Option<u64> {
        self.protocol_id
    }

    pub closed spec fn spec_session_id(&self) -> String {
        self.session_id
    }

    pub closed spec fn spec_keys(&self) -> Vec<String> {
        self.keys
    }

    pub fn new(protocol_id: Option<u64>, session_id: String, keys: Vec<String>) -> (res: Self)
        ensures
            res.spec_protocol_id() == protocol_id,
            res.spec_session_id() == session_id,
            res.spec_keys() == keys,
            res.spec_type().spec_value() == RbfRibltMessageTypeValues::ValueFetchRequest,
    {
        RbfRibltValueFetchRequestMessage { _type: RbfRibltMessageType::new(RbfRibltMessageTypeValues::ValueFetchRequest), protocol_id, session_id, keys }
    }

    pub fn protocol(&self) -> (res: Option<u64>)
        ensures
            res == self.spec_protocol_id(),
    {
        self.protocol_id
    }

    pub fn message_type(&self) -> (res: RbfRibltMessageType)
        ensures
            res == self.spec_type(),
    {
        self._type
    }

    pub fn session_id(&self) -> (res: &String)
        ensures
            *res == self.spec_session_id(),
    {
        &self.session_id
    }

    pub fn keys(&self) -> (res: &Vec<String>)
        ensures
            *res == self.spec_keys(),
    {
        &self.keys
    }
}

impl Message for RbfRibltValueFetchRequestMessage {
    type Type = RbfRibltMessageType;

    /// Messages carry everything in their fields: the content is empty.
    fn content(&self) -> (res: Vec<u8>)
        ensures
            res@.len() == 0,
    {
        Vec::new()
    }

    fn get_type(&self) -> (res: RbfRibltMessageType)
        ensures
            res == self.spec_type(),
    {
        self._type
    }

    fn protocol(&self) -> (res: Option<u64>)
        ensures
            res == self.spec_protocol_id(),
    {
        self.protocol_id
    }
}

/// A key with its value.
#[derive(Debug, Clone)]
pub struct RbfRibltFetchedEntry {
    key: String,
    value: String,
}

impl RbfRibltFetchedEntry {
    pub closed spec fn spec_key(&self) -> String {
        self.key
    }

    pub closed spec fn spec_value(&self) -> String {
        self.value
    }

    pub fn new(key: String, value: String) -> (res: Self)
        ensures
            res.spec_key() == key,
            res.spec_value() == value,
    {
        RbfRibltFetchedEntry { key, value }
    }

    pub fn key(&self) -> (res: &str)
        ensures
            res@ == self.spec_key()@,
    {
        self.key.as_str()
    }

    pub fn value(&self) -> (res: &str)
        ensures
            res@ == self.spec_value()@,
    {
        self.value.as_str()
    }
}

/// The values asked for, with those the asker lacks.
#[derive(Debug, Clone)]
pub struct RbfRibltValueFetchResponseMessage {
    _type: RbfRibltMessageType,
    protocol_id: Option<u64>,
    session_id: String,
    entries: Vec<RbfRibltFetchedEntry>,
}

impl RbfRibltValueFetchResponseMessage {
    pub closed spec fn spec_type(&self) -> RbfRibltMessageType {
        self._type
    }

    pub closed spec fn spec_protocol_id(&self) -> Option<u64> {
        self.protocol_id
    }

    pub closed spec fn spec_session_id(&self) -> String {
        self.session_id
    }

    pub closed spec fn spec_entries(&self) -> Vec<RbfRibltFetchedEntry> {
        self.entries
    }

    pub fn new(protocol_id: Option<u64>, session_id: String, entries: Vec<RbfRibltFetchedEntry>) -> (res: Self)
        ensures
            res.spec_protocol_id() == protocol_id,
            res.spec_session_id() == session_id,
            res.spec_entries() == entries,
            res.spec_type().spec_value() == RbfRibltMessageTypeValues::ValueFetchResponse,
    {
        RbfRibltValueFetchResponseMessage { _type: RbfRibltMessageType::new(RbfRibltMessageTypeValues::ValueFetchResponse), protocol_id, session_id, entries }
    }

    pub fn protocol(&self) -> (res: Option<u64>)
        ensures
            res == self.spec_protocol_id(),
    {
        self.protocol_id
    }

    pub fn message_type(&self) -> (res: RbfRibltMessageType)
        ensures
            res == self.spec_type(),
    {
        self._type
    }

    pub fn session_id(&self) -> (res: &String)
        ensures
            *res == self.spec_session_id(),
    {
        &self.session_id
    }

    pub fn entries(&self) -> (res: &Vec<RbfRibltFetchedEntry>)
        ensures
            *res == self.spec_entries(),
    {
        &self.entries
    }
}

impl Message for RbfRibltValueFetchResponseMessage {
    type Type = RbfRibltMessageType;

    /// Messages carry everything in their fields: the content is empty.
    fn content(&self) -> (res: Vec<u8>)
        ensures
            res@.len() == 0,
    {
        Vec::new()
    }

    fn get_type(&self) -> (res: RbfRibltMessageType)
        ensures
            res == self.spec_type(),
    {
        self._type
    }

    fn protocol(&self) -> (res: Option<u64>)
        ensures
            res == self.spec_protocol_id(),
    {
        self.protocol_id
    }
}

/// Any message of the protocol, as it travels on the wire.
#[derive(Debug, Clone)]
pub enum RbfRibltMessageWrapper {
    Handshake(RbfRibltHandshakeMessage),
    BloomFilterSlice(RbfRibltBloomFilterSliceMessage),
    SComSendSymbol(RbfRibltSComSendSymbolMessage),
    SComDecodedAll(RbfRibltSComDecodedAllMessage),
    SComRequestMoreSymbols(RbfRibltSComRequestMoreSymbolsMessage),
    ValueFetchRequest(RbfRibltValueFetchRequestMessage),
    ValueFetchResponse(RbfRibltValueFetchResponseMessage),
}

} // verus!
