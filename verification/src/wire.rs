//! Message framing shared by every protocol: the wire identifiers of the
//! protocols and the 16-byte packet header (protocol id, sender port, padding).

use rand::RngExt;
use vstd::prelude::*;

use crate::bytes::{
    be_bytes, be_bytes_u16, be_value, lemma_be_roundtrip, push_be_u16, push_be_u64, read_be_u64,
};

verus! {

/// Length of the header that precedes every message body.
pub const HEADER_LEN: usize = 16;

/// Wire identifier assigned to each protocol; the identifier is the first
/// eight bytes of every message.  `0` means "no protocol".
#[derive(Debug, Clone, Copy, PartialEq, Eq, Structural, Hash)]
pub enum ProtocolId {
    Riblt,
    MerkleTree,
    RbfRiblt,
    RfRiblt,
    Replication,
}

impl ProtocolId {
    pub open spec fn spec_wire_id(self) -> u64 {
        match self {
            ProtocolId::Riblt => 1,
            ProtocolId::MerkleTree => 2,
            ProtocolId::RbfRiblt => 3,
            ProtocolId::RfRiblt => 4,
            ProtocolId::Replication => 5,
        }
    }

    /// The identifier written on the wire for this protocol.
    pub fn as_u64(self) -> (res: u64)
        ensures
            res == self.spec_wire_id(),
    {
        match self {
            ProtocolId::Riblt => 1,
            ProtocolId::MerkleTree => 2,
            ProtocolId::RbfRiblt => 3,
            ProtocolId::RfRiblt => 4,
            ProtocolId::Replication => 5,
        }
    }
}

/// Each protocol has its own wire identifier, and none is `0`, which stands
/// for "no protocol".
pub proof fn lemma_wire_ids_distinct(a: ProtocolId, b: ProtocolId)
    ensures
        a.spec_wire_id() == b.spec_wire_id() <==> a == b,
        a.spec_wire_id() != 0,
{
}

/// The name under which a protocol id is reported.
pub open spec fn spec_protocol_name(protocol_id: u64) -> Seq<char> {
    if protocol_id == 1 {
        "riblt"@
    } else if protocol_id == 2 {
        "merkle"@
    } else if protocol_id == 3 {
        "rbf_riblt"@
    } else if protocol_id == 4 {
        "rf_riblt"@
    } else if protocol_id == 5 {
        "replication"@
    } else {
        "other"@
    }
}

pub struct ProtocolIDTranslator;

impl ProtocolIDTranslator {
    /// Maps a wire protocol id to the label used in metrics.
    pub fn translate(protocol_id: u64) -> (res: &'static str)
        ensures
            res@ == spec_protocol_name(protocol_id),
    {
        if protocol_id == 1 {
            "riblt"
        } else if protocol_id == 2 {
            "merkle"
        } else if protocol_id == 3 {
            "rbf_riblt"
        } else if protocol_id == 4 {
            "rf_riblt"
        } else if protocol_id == 5 {
            "replication"
        } else {
            "other"
        }
    }
}

/// The eight header bytes that carry an optional protocol id.
pub open spec fn spec_protocol_field(protocol: Option<u64>) -> Seq<u8> {
    match protocol {
        Some(id) => be_bytes(id),
        None => Seq::new(8, |i: int| 0u8),
    }
}

/// A full packet: protocol id, sender port, six zero bytes, then the body.
pub open spec fn spec_packet(protocol: Option<u64>, sender_port: u16, body: Seq<u8>) -> Seq<u8> {
    spec_protocol_field(protocol) + be_bytes_u16(sender_port) + Seq::new(6, |i: int| 0u8) + body
}

/// The value of two big-endian bytes.
pub open spec fn be_value_u16(hi: u8, lo: u8) -> u16 {
    (hi as int * 256 + lo as int) as u16
}

/// The protocol id a header carries: a zero tag means no protocol.
pub open spec fn spec_tag_protocol(tag: u64) -> Option<u64> {
    if tag == 0 {
        None
    } else {
        Some(tag)
    }
}

/// Frames a message body behind the 16-byte header.
pub fn build_message_packet(protocol: Option<u64>, sender_port: u16, body_bytes: &[u8]) -> (res:
    Vec<u8>)
    ensures
        res@ == spec_packet(protocol, sender_port, body_bytes@),
{
    let mut packet: Vec<u8> = Vec::new();
    match protocol {
        Some(id) => {
            push_be_u64(&mut packet, id);
        },
        None => {
            let mut i: usize = 0;
            while i < 8
                invariant
                    i <= 8,
                    packet@ == Seq::new(i as nat, |j: int| 0u8),
                decreases 8 - i,
            {
                packet.push(0u8);
                i = i + 1;
                assert(packet@ =~= Seq::new(i as nat, |j: int| 0u8));
            }
        },
    }
    assert(packet@ =~= spec_protocol_field(protocol));
    push_be_u16(&mut packet, sender_port);
    let ghost before_pad = packet@;
    let mut i: usize = 0;
    while i < 6
        invariant
            i <= 6,
            packet@ == before_pad + Seq::new(i as nat, |j: int| 0u8),
        decreases 6 - i,
    {
        packet.push(0u8);
        i = i + 1;
        assert(packet@ =~= before_pad + Seq::new(i as nat, |j: int| 0u8));
    }
    let ghost before_body = packet@;
    let mut k: usize = 0;
    while k < body_bytes.len()
        invariant
            k <= body_bytes@.len(),
            packet@ == before_body + body_bytes@.subrange(0, k as int),
        decreases body_bytes@.len() - k,
    {
        packet.push(body_bytes[k]);
        k = k + 1;
        assert(packet@ =~= before_body + body_bytes@.subrange(0, k as int));
    }
    assert(body_bytes@.subrange(0, k as int) =~= body_bytes@);
    assert(packet@ =~= spec_packet(protocol, sender_port, body_bytes@));
    packet
}

/// What a packet header says: the protocol it is for and the sender's port.
#[derive(Debug, Clone, Copy, PartialEq, Eq, Structural)]
pub struct PacketHeader {
    pub protocol: Option<u64>,
    pub sender_port: u16,
}

/// Splits a packet into its header and body; `None` when it is shorter than a header.
pub fn parse_message_packet(bytes: &[u8]) -> (res: Option<(PacketHeader, Vec<u8>)>)
    ensures
        bytes@.len() < 16 <==> res is None,
        res matches Some((h, body)) ==> {
            &&& h.protocol == spec_tag_protocol(be_value(bytes@.subrange(0, 8)))
            &&& (h.protocol is None <==> be_value(bytes@.subrange(0, 8)) == 0)
            &&& (h.protocol matches Some(id) ==> id == be_value(bytes@.subrange(0, 8)))
            &&& h.sender_port == be_value_u16(bytes@[8], bytes@[9])
            &&& body@ == bytes@.subrange(16, bytes@.len() as int)
        },
{
    if bytes.len() < HEADER_LEN {
        return None;
    }
    let tag = read_be_u64(bytes, 0);
    let protocol = if tag == 0 {
        None
    } else {
        Some(tag)
    };
    let sender_port: u16 = ((bytes[8] as u16) << 8u16) | (bytes[9] as u16);
    let hi = bytes[8];
    let lo = bytes[9];
    assert(((hi as u16) << 8u16) | (lo as u16) == (hi as int * 256 + lo as int) as u16)
        by (bit_vector);
    let mut body: Vec<u8> = Vec::new();
    let mut k: usize = HEADER_LEN;
    while k < bytes.len()
        invariant
            16 <= k <= bytes@.len(),
            body@ == bytes@.subrange(16, k as int),
        decreases bytes@.len() - k,
    {
        body.push(bytes[k]);
        k = k + 1;
        assert(body@ =~= bytes@.subrange(16, k as int));
    }
    Some((PacketHeader { protocol, sender_port }, body))
}

/// Reading back a packet gives what was framed: the protocol id (a zero id reads
/// as no protocol), the sender port and the body.
pub proof fn lemma_packet_roundtrip(protocol: Option<u64>, sender_port: u16, body: Seq<u8>)
    ensures
        ({
            let p = spec_packet(protocol, sender_port, body);
            &&& p.len() == 16 + body.len()
            &&& spec_tag_protocol(be_value(p.subrange(0, 8))) == match protocol {
                Some(id) => spec_tag_protocol(id),
                None => None,
            }
            &&& be_value(p.subrange(0, 8)) == match protocol {
                Some(id) => id,
                None => 0u64,
            }
            &&& be_value_u16(p[8], p[9]) == sender_port
            &&& p.subrange(16, p.len() as int) == body
        }),
{
    let p = spec_packet(protocol, sender_port, body);
    let field = spec_protocol_field(protocol);
    match protocol {
        Some(id) => {
            lemma_be_roundtrip(id);
        },
        None => {
        },
    }
    assert(field.len() == 8);
    assert(p.subrange(0, 8) =~= field);
    match protocol {
        Some(id) => {
        },
        None => {
            let z = field;
            assert(z =~= seq![0u8, 0u8, 0u8, 0u8, 0u8, 0u8, 0u8, 0u8]);
            assert(be_value(z) == 0) by {
                assert(z.reverse() =~= z);
                assert((0u8 as u64) | ((0u8 as u64) << 8u64) | ((0u8 as u64) << 16u64) | ((0u8 as u64) << 24u64)
                    | ((0u8 as u64) << 32u64) | ((0u8 as u64) << 40u64) | ((0u8 as u64) << 48u64) | ((
                0u8 as u64) << 56u64) == 0) by (bit_vector);
            }
        },
    }
    let hi = ((sender_port >> 8u16) & 0xff) as u8;
    let lo = (sender_port & 0xff) as u8;
    assert(p[8] == hi && p[9] == lo);
    assert((hi as int * 256 + lo as int) as u16 == sender_port) by (bit_vector)
        requires
            hi == ((sender_port >> 8u16) & 0xff) as u8,
            lo == (sender_port & 0xff) as u8,
    ;
    assert(p.subrange(16, p.len() as int) =~= body);
}

/// Parsing a framed packet gives back its protocol: every nonzero protocol id
/// (the RIBLT protocol's wire id 1 among them) reads back as that id, and only a
/// packet framed with no protocol or with id zero reads as no protocol.
pub proof fn lemma_parsed_protocol(protocol: Option<u64>, sender_port: u16, body: Seq<u8>, h: PacketHeader)
    requires
        ({
            let p = spec_packet(protocol, sender_port, body);
            &&& (h.protocol is None <==> be_value(p.subrange(0, 8)) == 0)
            &&& (h.protocol matches Some(id) ==> id == be_value(p.subrange(0, 8)))
        }),
    ensures
        protocol matches Some(id) ==> (id != 0 ==> h.protocol == Some(id)),
        (protocol is None || protocol == Some(0u64)) ==> h.protocol is None,
{
    lemma_packet_roundtrip(protocol, sender_port, body);
}

/// Interprets the first eight bytes of a stream as a big-endian protocol id.
pub trait RequestHandler<SType, RType> {
    fn handle(&self, stream: SType) -> RType;
}

pub struct DefaultRequestHandler {}

impl DefaultRequestHandler {
    pub fn new() -> (res: Self) {
        DefaultRequestHandler {  }
    }
}

impl RequestHandler<Vec<u8>, u64> for DefaultRequestHandler {
    /// The protocol id at the head of a stream, or `0` when the stream is shorter
    /// than eight bytes.
    fn handle(&self, stream: Vec<u8>) -> (res: u64)
        ensures
            stream@.len() < 8 ==> res == 0,
            stream@.len() >= 8 ==> res == be_value(stream@.subrange(0, 8)),
    {
        if stream.len() < 8 {
            return 0;
        }
        read_be_u64(stream.as_slice(), 0)
    }
}

/// A value naming a kind of message.
pub trait MessageTypeValues {}

/// The kind tag a message carries.
pub trait MessageType {
    type Values: MessageTypeValues;

    fn value(&self) -> Self::Values;
}

/// A protocol message: its kind, the content it carries besides its fields,
/// and the protocol it belongs to.
pub trait Message {
    type Type: MessageType;

    fn content(&self) -> Vec<u8>;

    fn get_type(&self) -> Self::Type;

    fn protocol(&self) -> Option<u64>;
}

/// Turns message content of type `A` into a value of type `R`.
pub trait MessageDeserializer<A, R> {
    fn deserialize(&self, content: A) -> R;
}

/// Marker for the rkyv encoding of message bodies.
pub struct RkyvDeserializer {}

pub enum DefaultMessageTypes {
    Default,
}

/// Draws a uniformly random `u64` from the thread-local generator of `rand`
/// (`rand::rng().random()`); nothing is claimed of the value.
#[verifier::external_body]
pub(crate) fn random_u64() -> u64 {
    rand::rng().random::<u64>()
}

/// A lowercase hexadecimal digit.
pub open spec fn is_lower_hex_digit(c: char) -> bool {
    ('0' <= c && c <= '9') || ('a' <= c && c <= 'f')
}

/// The hyphenated lowercase text of a random (version 4, RFC 4122 variant)
/// UUID: 36 characters, hyphens at 8, 13, 18 and 23, hex digits elsewhere,
/// version digit `4` at 14 and a variant digit among `8`, `9`, `a`, `b` at 19.
pub open spec fn is_session_id_text(s: Seq<char>) -> bool {
    &&& s.len() == 36
    &&& forall|i: int|
        0 <= i < 36 ==> if i == 8 || i == 13 || i == 18 || i == 23 {
            #[trigger] s[i] == '-'
        } else {
            is_lower_hex_digit(s[i])
        }
    &&& s[14] == '4'
    &&& (s[19] == '8' || s[19] == '9' || s[19] == 'a' || s[19] == 'b')
}

/// A fresh random session id: `uuid::Uuid::new_v4` rendered by `to_string`,
/// which the crate writes in hyphenated lowercase form with the version and
/// variant bits fixed. Which of those ids comes back is left open.
#[verifier::external_body]
pub(crate) fn new_session_id() -> (res: String)
    ensures
        is_session_id_text(res@),
{
    uuid::Uuid::new_v4().to_string()
}

pub struct ProtocolIDGenerator {}

impl ProtocolIDGenerator {
    /// A fresh random protocol id.
    pub fn generate() -> u64 {
        random_u64()
    }
}

} // verus!
