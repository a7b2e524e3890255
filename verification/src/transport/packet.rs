//! QUIC packet handling and reliability: packet headers and packets on the wire,
//! acknowledgment frames, acknowledgment tracking, loss detection and RTT estimation.

use vstd::prelude::*;
use std::collections::{HashMap, VecDeque};
use std::time::Instant;
use crate::error::{H3Error, H3Result, TransportError};
use crate::transport::connection::ConnectionId;
use crate::protocol::maps::{
    collect_keys, lemma_not_in_prefix, lemma_push_contains, lemma_push_no_duplicates,
    lemma_take_next,
};
use crate::time::{TimeSpan, MAX_SPAN_NANOS};
use crate::transport::wire::{
    be32, be64, be32_at, be64_at, push_be32, push_be64, read_be32, read_be64,
    lemma_be32_roundtrip, lemma_be64_roundtrip,
};

verus! {

broadcast use vstd::std_specs::hash::group_hash_axioms;

/// Maximum QUIC packet size.
pub const MAX_PACKET_SIZE: usize = 1350;

/// QUIC packet types.
#[derive(Debug, Clone, Copy, PartialEq, Eq, Structural)]
pub enum PacketType {
    /// Initial packet
    Initial,
    /// 0-RTT packet
    ZeroRTT,
    /// Handshake packet
    Handshake,
    /// Retry packet
    Retry,
    /// 1-RTT packet (short header)
    OneRTT,
    /// Version negotiation packet
    VersionNegotiation,
}

/// The first byte written for a packet type.
pub open spec fn type_code(t: PacketType) -> u8 {
    match t {
        PacketType::Initial => 0x80,
        PacketType::ZeroRTT => 0x81,
        PacketType::Handshake => 0x82,
        PacketType::Retry => 0x83,
        PacketType::OneRTT => 0x40,
        PacketType::VersionNegotiation => 0x00,
    }
}

/// The packet type that a first byte announces, by its high four bits, if any.
pub open spec fn spec_type_from_byte(b: u8) -> Option<PacketType> {
    let hi = b / 16;
    if hi == 8 {
        Some(PacketType::Initial)
    } else if hi == 9 {
        Some(PacketType::ZeroRTT)
    } else if hi == 10 {
        Some(PacketType::Handshake)
    } else if hi == 11 {
        Some(PacketType::Retry)
    } else if 4 <= hi <= 7 {
        Some(PacketType::OneRTT)
    } else if hi == 0 {
        Some(PacketType::VersionNegotiation)
    } else {
        None
    }
}

/// Whether a packet type has a long header.
pub open spec fn is_long(t: PacketType) -> bool {
    t == PacketType::Initial || t == PacketType::ZeroRTT || t == PacketType::Handshake || t
        == PacketType::Retry
}

fn code_of(t: PacketType) -> (b: u8)
    ensures
        b == type_code(t),
{
    match t {
        PacketType::Initial => 0x80,
        PacketType::ZeroRTT => 0x81,
        PacketType::Handshake => 0x82,
        PacketType::Retry => 0x83,
        PacketType::OneRTT => 0x40,
        PacketType::VersionNegotiation => 0x00,
    }
}

impl PacketType {
    /// Parse packet type from the first byte.
    pub fn from_byte(byte: u8) -> (t: Option<Self>)
        ensures
            t == spec_type_from_byte(byte),
    {
        let hi = byte >> 4u8;
        assert(byte >> 4u8 == byte / 16) by (bit_vector);
        if hi == 8 {
            Some(PacketType::Initial)
        } else if hi == 9 {
            Some(PacketType::ZeroRTT)
        } else if hi == 10 {
            Some(PacketType::Handshake)
        } else if hi == 11 {
            Some(PacketType::Retry)
        } else if 4 <= hi && hi <= 7 {
            Some(PacketType::OneRTT)
        } else if hi == 0 {
            Some(PacketType::VersionNegotiation)
        } else {
            None
        }
    }
}

/// QUIC packet header.
#[derive(Debug, Clone, Copy, PartialEq, Eq)]
pub struct PacketHeader {
    /// Packet type
    pub packet_type: PacketType,
    /// Connection ID
    pub connection_id: ConnectionId,
    /// Packet number
    pub packet_number: u64,
    /// Version (for long header packets)
    pub version: Option<u32>,
    /// Source connection ID (for long header packets)
    pub source_connection_id: Option<ConnectionId>,
    /// Destination connection ID (for long header packets)
    pub destination_connection_id: Option<ConnectionId>,
}

/// The value of a packet header, connection identifiers as byte sequences.
pub struct HeaderModel {
    pub packet_type: PacketType,
    pub connection_id: Seq<u8>,
    pub packet_number: u64,
    pub version: Option<u32>,
    pub source_connection_id: Option<Seq<u8>>,
    pub destination_connection_id: Option<Seq<u8>>,
}

/// The bytes of an optional connection identifier.
pub open spec fn cid_view(c: Option<ConnectionId>) -> Option<Seq<u8>> {
    match c {
        Some(id) => Some(id.0@),
        None => None,
    }
}

impl View for PacketHeader {
    type V = HeaderModel;

    open spec fn view(&self) -> HeaderModel {
        HeaderModel {
            packet_type: self.packet_type,
            connection_id: self.connection_id.0@,
            packet_number: self.packet_number,
            version: self.version,
            source_connection_id: cid_view(self.source_connection_id),
            destination_connection_id: cid_view(self.destination_connection_id),
        }
    }
}

/// Sixteen zero bytes.
pub open spec fn zero_cid() -> Seq<u8> {
    Seq::new(16, |i: int| 0u8)
}

/// `b` filled up with zero bytes to 16.
pub open spec fn padded_cid(b: Seq<u8>) -> Seq<u8> {
    Seq::new(16, |i: int| if i < b.len() { b[i] } else { 0u8 })
}

/// The bytes `encode` writes for a header: the type byte; for a long header the version
/// (1 when none is set), the destination identifier with its length 16 and the source
/// identifier with its length (or a zero length); for a short header the identifier; for
/// version negotiation version 0 and the identifier with its length; then the low 32 bits of
/// the packet number.
pub open spec fn spec_encode_header(h: HeaderModel) -> Seq<u8> {
    let body = if is_long(h.packet_type) {
        be32(
            match h.version {
                Some(v) => v,
                None => 1u32,
            },
        ) + seq![16u8] + h.connection_id + match h.source_connection_id {
            Some(c) => seq![16u8] + c,
            None => seq![0u8],
        }
    } else if h.packet_type == PacketType::OneRTT {
        h.connection_id
    } else {
        be32(0) + seq![16u8] + h.connection_id
    };
    seq![type_code(h.packet_type)] + body + be32(h.packet_number as u32)
}

/// A header with the packet number read from `s` at `pos` when four bytes are there, and the
/// position after it.
pub open spec fn with_packet_number(h: HeaderModel, s: Seq<u8>, pos: nat) -> (HeaderModel, nat) {
    if pos + 4 <= s.len() {
        (HeaderModel { packet_number: be32_at(s, pos as int) as u64, ..h }, pos + 4)
    } else {
        (h, pos)
    }
}

/// Decoding the rest of a long header after the type byte.
pub open spec fn decode_long(s: Seq<u8>, h0: HeaderModel) -> Result<(HeaderModel, nat), Seq<char>> {
    if s.len() < 5 {
        Err("Incomplete version"@)
    } else if s.len() < 6 {
        Err("Missing DCID length"@)
    } else {
        let h1 = HeaderModel { version: Some(be32_at(s, 1) as u32), ..h0 };
        let dl = s[5] as nat;
        if dl > 0 && s.len() < 6 + dl {
            Err("Incomplete DCID"@)
        } else {
            let (h2, p2) = if dl > 0 && dl <= 16 {
                (HeaderModel { connection_id: padded_cid(s.subrange(6, (6 + dl) as int)), ..h1 }, 6 + dl)
            } else {
                (h1, 6nat)
            };
            if s.len() < p2 + 1 {
                Err("Missing SCID length"@)
            } else {
                let sl = s[p2 as int] as nat;
                let p3 = p2 + 1;
                if sl > 0 && s.len() < p3 + sl {
                    Err("Incomplete SCID"@)
                } else {
                    let (h3, p4) = if sl > 0 && sl <= 16 {
                        (
                            HeaderModel {
                                source_connection_id: Some(
                                    padded_cid(s.subrange(p3 as int, (p3 + sl) as int)),
                                ),
                                ..h2
                            },
                            p3 + sl,
                        )
                    } else {
                        (h2, p3)
                    };
                    Ok(with_packet_number(h3, s, p4))
                }
            }
        }
    }
}

/// Decoding the rest of a version negotiation header after the type byte.
pub open spec fn decode_version_negotiation(s: Seq<u8>, h0: HeaderModel) -> Result<
    (HeaderModel, nat),
    Seq<char>,
> {
    if s.len() < 5 {
        Err("Incomplete version"@)
    } else if s.len() < 6 {
        Err("Missing DCID length"@)
    } else {
        let h1 = HeaderModel { version: Some(be32_at(s, 1) as u32), ..h0 };
        let dl = s[5] as nat;
        let (h2, p2) = if dl > 0 && s.len() >= 6 + dl && dl <= 16 {
            (HeaderModel { connection_id: padded_cid(s.subrange(6, (6 + dl) as int)), ..h1 }, 6 + dl)
        } else {
            (h1, 6nat)
        };
        Ok(with_packet_number(h2, s, p2))
    }
}

/// What `PacketHeader::decode` gives for `s`: the header and the bytes it took, or the
/// message of the `InvalidPacket` error.
pub open spec fn spec_decode_header(s: Seq<u8>) -> Result<(HeaderModel, nat), Seq<char>> {
    if s.len() == 0 {
        Err("Empty packet"@)
    } else {
        match spec_type_from_byte(s[0]) {
            None => Err("Invalid packet type"@),
            Some(t) => {
                let h0 = HeaderModel {
                    packet_type: t,
                    connection_id: zero_cid(),
                    packet_number: 0,
                    version: None,
                    source_connection_id: None,
                    destination_connection_id: None,
                };
                if is_long(t) {
                    decode_long(s, h0)
                } else if t == PacketType::OneRTT {
                    if s.len() < 17 {
                        Err("Incomplete connection ID"@)
                    } else {
                        Ok(
                            with_packet_number(
                                HeaderModel { connection_id: s.subrange(1, 17), ..h0 },
                                s,
                                17,
                            ),
                        )
                    }
                } else {
                    decode_version_negotiation(s, h0)
                }
            },
        }
    }
}

/// Whether `e` is a transport `InvalidPacket` error with message `msg`.
pub open spec fn is_invalid_packet(e: H3Error, msg: Seq<char>) -> bool {
    e matches H3Error::Transport(TransportError::InvalidPacket(m)) && m@ == msg
}

/// Whether `e` is a transport `InvalidFrame` error with message `msg`.
pub open spec fn is_invalid_frame(e: H3Error, msg: Seq<char>) -> bool {
    e matches H3Error::Transport(TransportError::InvalidFrame(m)) && m@ == msg
}

fn invalid_packet(msg: &str) -> (e: H3Error)
    ensures
        is_invalid_packet(e, msg@),
{
    H3Error::Transport(TransportError::InvalidPacket(msg.to_owned()))
}

fn invalid_frame(msg: &str) -> (e: H3Error)
    ensures
        is_invalid_frame(e, msg@),
{
    H3Error::Transport(TransportError::InvalidFrame(msg.to_owned()))
}

fn push_cid(buf: &mut Vec<u8>, id: &ConnectionId)
    ensures
        final(buf)@ == old(buf)@ + id.0@,
{
    for i in 0..16
        invariant
            buf@ == old(buf)@ + id.0@.take(i as int),
    {
        buf.push(id.0[i]);
        assert(buf@ =~= old(buf)@ + id.0@.take(i + 1));
    }
    assert(id.0@.take(16) =~= id.0@);
}

/// The identifier made of the `len` bytes of `data` at `pos`, filled up with zeros.
fn cid_from(data: &[u8], pos: usize, len: usize) -> (id: ConnectionId)
    requires
        len <= 16,
        pos + len <= data@.len(),
    ensures
        id.0@ == padded_cid(data@.subrange(pos as int, (pos + len) as int)),
{
    let n = data.len();
    let mut bytes = [0u8; 16];
    let mut j: usize = 0;
    while j < len
        invariant
            j <= len <= 16,
            pos + len <= data@.len(),
            n == data@.len(),
            forall|k: int|
                0 <= k < 16 ==> #[trigger] bytes@[k] == (if k < j {
                    data@[pos + k]
                } else {
                    0u8
                }),
        decreases len - j,
    {
        bytes[j] = data[pos + j];
        j = j + 1;
    }
    assert(bytes@ =~= padded_cid(data@.subrange(pos as int, (pos + len) as int)));
    ConnectionId(bytes)
}

impl PacketHeader {
    /// Create a new packet header with no version and no further identifiers.
    pub fn new(packet_type: PacketType, connection_id: ConnectionId, packet_number: u64) -> (h:
        Self)
        ensures
            h == (PacketHeader {
                packet_type,
                connection_id,
                packet_number,
                version: None,
                source_connection_id: None,
                destination_connection_id: None,
            }),
    {
        PacketHeader {
            packet_type,
            connection_id,
            packet_number,
            version: None,
            source_connection_id: None,
            destination_connection_id: None,
        }
    }

    /// Encode the packet header to bytes.
    pub fn encode(&self) -> (res: H3Result<Vec<u8>>)
        ensures
            res matches Ok(b) && b@ == spec_encode_header(self@),
    {
        let mut buffer: Vec<u8> = Vec::new();
        buffer.push(code_of(self.packet_type));
        match self.packet_type {
            PacketType::Initial | PacketType::ZeroRTT | PacketType::Handshake | PacketType::Retry => {
                let version = match self.version {
                    Some(v) => v,
                    None => 1,
                };
                push_be32(&mut buffer, version);
                buffer.push(16);
                push_cid(&mut buffer, &self.connection_id);
                match &self.source_connection_id {
                    Some(src_id) => {
                        buffer.push(16);
                        push_cid(&mut buffer, src_id);
                    },
                    None => {
                        buffer.push(0);
                    },
                }
            },
            PacketType::OneRTT => {
                push_cid(&mut buffer, &self.connection_id);
            },
            PacketType::VersionNegotiation => {
                push_be32(&mut buffer, 0);
                buffer.push(16);
                push_cid(&mut buffer, &self.connection_id);
            },
        }
        push_be32(&mut buffer, self.packet_number as u32);
        assert(buffer@ =~= spec_encode_header(self@));
        Ok(buffer)
    }

    /// Decode a packet header from bytes, giving the header and the number of bytes it took.
    pub fn decode(data: &[u8]) -> (res: H3Result<(Self, usize)>)
        ensures
            match spec_decode_header(data@) {
                Ok((h, n)) => res matches Ok((hh, nn)) && hh@ == h && nn == n,
                Err(msg) => res matches Err(e) && is_invalid_packet(e, msg),
            },
    {
        let len = data.len();
        if len == 0 {
            return Err(invalid_packet("Empty packet"));
        }
        let first_byte = data[0];
        let packet_type = match PacketType::from_byte(first_byte) {
            Some(t) => t,
            None => {
                return Err(invalid_packet("Invalid packet type"));
            },
        };
        let mut header = PacketHeader {
            packet_type,
            connection_id: ConnectionId([0u8; 16]),
            packet_number: 0,
            version: None,
            source_connection_id: None,
            destination_connection_id: None,
        };
        assert(header.connection_id.0@ =~= zero_cid());
        let mut pos: usize = 1;
        match packet_type {
            PacketType::Initial | PacketType::ZeroRTT | PacketType::Handshake | PacketType::Retry => {
                if len - pos < 4 {
                    return Err(invalid_packet("Incomplete version"));
                }
                header.version = Some(read_be32(data, pos));
                pos = pos + 4;
                if len - pos < 1 {
                    return Err(invalid_packet("Missing DCID length"));
                }
                let dcid_len = data[pos] as usize;
                pos = pos + 1;
                if dcid_len > 0 {
                    if len - pos < dcid_len {
                        return Err(invalid_packet("Incomplete DCID"));
                    }
                    if dcid_len <= 16 {
                        header.connection_id = cid_from(data, pos, dcid_len);
                        pos = pos + dcid_len;
                    }
                }
                if len - pos < 1 {
                    return Err(invalid_packet("Missing SCID length"));
                }
                let scid_len = data[pos] as usize;
                pos = pos + 1;
                if scid_len > 0 {
                    if len - pos < scid_len {
                        return Err(invalid_packet("Incomplete SCID"));
                    }
                    if scid_len <= 16 {
                        header.source_connection_id = Some(cid_from(data, pos, scid_len));
                        pos = pos + scid_len;
                    }
                }
            },
            PacketType::OneRTT => {
                if len - pos < 16 {
                    return Err(invalid_packet("Incomplete connection ID"));
                }
                header.connection_id = cid_from(data, pos, 16);
                assert(padded_cid(data@.subrange(1, 17)) =~= data@.subrange(1, 17));
                pos = pos + 16;
            },
            PacketType::VersionNegotiation => {
                if len - pos < 4 {
                    return Err(invalid_packet("Incomplete version"));
                }
                header.version = Some(read_be32(data, pos));
                pos = pos + 4;
                if len - pos < 1 {
                    return Err(invalid_packet("Missing DCID length"));
                }
                let dcid_len = data[pos] as usize;
                pos = pos + 1;
                if dcid_len > 0 && len - pos >= dcid_len {
                    if dcid_len <= 16 {
                        header.connection_id = cid_from(data, pos, dcid_len);
                        pos = pos + dcid_len;
                    }
                }
            },
        }
        if len - pos >= 4 {
            header.packet_number = read_be32(data, pos) as u64;
            pos = pos + 4;
        }
        Ok((header, pos))
    }
}


/// A header as it comes back from its own encoding: the long header types all read back as
/// `Initial` (their type bytes share the high four bits), a long header carries its version
/// (1 when none was set) and its source identifier, version negotiation reads version 0, the
/// packet number keeps its low 32 bits, and no destination identifier is read.
pub open spec fn header_after_roundtrip(h: HeaderModel) -> HeaderModel {
    let pn = (h.packet_number as u32) as u64;
    if is_long(h.packet_type) {
        HeaderModel {
            packet_type: PacketType::Initial,
            connection_id: h.connection_id,
            packet_number: pn,
            version: Some(
                match h.version {
                    Some(v) => v,
                    None => 1u32,
                },
            ),
            source_connection_id: h.source_connection_id,
            destination_connection_id: None,
        }
    } else if h.packet_type == PacketType::OneRTT {
        HeaderModel {
            packet_type: PacketType::OneRTT,
            connection_id: h.connection_id,
            packet_number: pn,
            version: None,
            source_connection_id: None,
            destination_connection_id: None,
        }
    } else {
        HeaderModel {
            packet_type: PacketType::VersionNegotiation,
            connection_id: h.connection_id,
            packet_number: pn,
            version: Some(0),
            source_connection_id: None,
            destination_connection_id: None,
        }
    }
}

/// Decoding the encoding of a header (followed by anything) takes exactly the encoding and
/// gives back the header, up to what the encoding does not carry (`header_after_roundtrip`).
pub proof fn lemma_header_roundtrip(h: HeaderModel, rest: Seq<u8>)
    requires
        h.connection_id.len() == 16,
        h.source_connection_id matches Some(c) ==> c.len() == 16,
    ensures
        spec_decode_header(spec_encode_header(h) + rest) == Ok::<(HeaderModel, nat), Seq<char>>(
            (header_after_roundtrip(h), spec_encode_header(h).len()),
        ),
{
    let e = spec_encode_header(h);
    let s = e + rest;
    let pn32 = h.packet_number as u32;
    let code = type_code(h.packet_type);
    assert(s[0] == code);
    assert(padded_cid(h.connection_id) =~= h.connection_id);
    if is_long(h.packet_type) {
        assert(code / 16 == 8);
        let v = match h.version {
            Some(v) => v,
            None => 1u32,
        };
        let tail = match h.source_connection_id {
            Some(c) => seq![16u8] + c,
            None => seq![0u8],
        };
        assert(e =~= seq![code] + be32(v) + seq![16u8] + h.connection_id + tail + be32(pn32));
        assert(s.subrange(1, 5) =~= be32(v));
        lemma_be32_roundtrip(v, s, 1);
        assert(s[5] == 16u8);
        assert(s.subrange(6, 22) =~= h.connection_id);
        match h.source_connection_id {
            Some(c) => {
                assert(padded_cid(c) =~= c);
                assert(s[22] == 16u8);
                assert(s.subrange(23, 39) =~= c);
                assert(s.subrange(39, 43) =~= be32(pn32));
                lemma_be32_roundtrip(pn32, s, 39);
                assert(e.len() == 43);
            },
            None => {
                assert(s[22] == 0u8);
                assert(s.subrange(23, 27) =~= be32(pn32));
                lemma_be32_roundtrip(pn32, s, 23);
                assert(e.len() == 27);
            },
        }
    } else if h.packet_type == PacketType::OneRTT {
        assert(code / 16 == 4);
        assert(e =~= seq![code] + h.connection_id + be32(pn32));
        assert(s.subrange(1, 17) =~= h.connection_id);
        assert(s.subrange(17, 21) =~= be32(pn32));
        lemma_be32_roundtrip(pn32, s, 17);
    } else {
        assert(code / 16 == 0);
        assert(e =~= seq![code] + be32(0) + seq![16u8] + h.connection_id + be32(pn32));
        assert(s.subrange(1, 5) =~= be32(0));
        lemma_be32_roundtrip(0, s, 1);
        assert(s[5] == 16u8);
        assert(s.subrange(6, 22) =~= h.connection_id);
        assert(s.subrange(22, 26) =~= be32(pn32));
        lemma_be32_roundtrip(pn32, s, 22);
    }
}


/// QUIC packet.
#[derive(Debug)]
pub struct Packet {
    /// Packet header
    pub header: PacketHeader,
    /// Packet payload
    pub payload: Vec<u8>,
    /// Timestamp when packet was created/received
    pub timestamp: Instant,
    /// Whether this packet needs acknowledgment
    pub ack_eliciting: bool,
}

/// The value of a packet apart from its timestamp.
pub struct PacketModel {
    pub header: HeaderModel,
    pub payload: Seq<u8>,
    pub ack_eliciting: bool,
}

impl View for Packet {
    type V = PacketModel;

    open spec fn view(&self) -> PacketModel {
        PacketModel {
            header: self.header@,
            payload: self.payload@,
            ack_eliciting: self.ack_eliciting,
        }
    }
}

/// A copy of the bytes of `data`.
fn copy_slice(data: &[u8]) -> (out: Vec<u8>)
    ensures
        out@ == data@,
{
    let mut out: Vec<u8> = Vec::new();
    for i in 0..data.len()
        invariant
            out@ == data@.take(i as int),
    {
        out.push(data[i]);
        assert(out@ =~= data@.take(i + 1));
    }
    assert(out@ =~= data@);
    out
}

/// A copy of a packet, timestamp included.
fn copy_packet(p: &Packet) -> (q: Packet)
    ensures
        q@ == p@,
        q.timestamp == p.timestamp,
{
    Packet {
        header: p.header,
        payload: copy_slice(p.payload.as_slice()),
        timestamp: p.timestamp,
        ack_eliciting: p.ack_eliciting,
    }
}

fn append_all(buf: &mut Vec<u8>, data: &[u8])
    ensures
        final(buf)@ == old(buf)@ + data@,
{
    for i in 0..data.len()
        invariant
            buf@ == old(buf)@ + data@.take(i as int),
    {
        buf.push(data[i]);
        assert(buf@ =~= old(buf)@ + data@.take(i + 1));
    }
    assert(data@.take(data@.len() as int) =~= data@);
}

impl Clone for Packet {
    fn clone(&self) -> (q: Self)
        ensures
            q@ == self@,
            q.timestamp == self.timestamp,
    {
        copy_packet(self)
    }
}

impl Packet {
    /// Create a new packet, stamped with the time now and asking for acknowledgment.
    pub fn new(
        packet_type: PacketType,
        connection_id: ConnectionId,
        packet_number: u64,
        payload: Vec<u8>,
    ) -> (p: Self)
        ensures
            p.header == (PacketHeader {
                packet_type,
                connection_id,
                packet_number,
                version: None,
                source_connection_id: None,
                destination_connection_id: None,
            }),
            p.payload@ == payload@,
            p.ack_eliciting,
    {
        let header = PacketHeader::new(packet_type, connection_id, packet_number);
        Packet { header, payload, timestamp: crate::time::now(), ack_eliciting: true }
    }

    /// Encode the packet: the header's bytes, then the payload.
    pub fn encode(&self) -> (res: H3Result<Vec<u8>>)
        ensures
            res matches Ok(b) && b@ == spec_encode_header(self.header@) + self.payload@,
    {
        let mut buffer = match self.header.encode() {
            Ok(b) => b,
            Err(e) => {
                return Err(e);
            },
        };
        append_all(&mut buffer, self.payload.as_slice());
        Ok(buffer)
    }

    /// Decode a packet: a header, and the rest of the bytes as payload. The packet is stamped
    /// with the time now and asks for acknowledgment.
    pub fn decode(data: &[u8]) -> (res: H3Result<Self>)
        ensures
            match spec_decode_header(data@) {
                Ok((h, n)) => res matches Ok(p) && p@ == (PacketModel {
                    header: h,
                    payload: data@.subrange(n as int, data@.len() as int),
                    ack_eliciting: true,
                }),
                Err(msg) => res matches Err(e) && is_invalid_packet(e, msg),
            },
    {
        let (header, header_len) = match PacketHeader::decode(data) {
            Ok(r) => r,
            Err(e) => {
                return Err(e);
            },
        };
        if data.len() < header_len {
            return Err(invalid_packet("Packet too short"));
        }
        let payload = copy_slice(vstd::slice::slice_subrange(data, header_len, data.len()));
        Ok(Packet { header, payload, timestamp: crate::time::now(), ack_eliciting: true })
    }

    /// The approximate size of the packet: 64 bytes of header plus the payload.
    pub fn size(&self) -> (n: usize)
        requires
            64 + self.payload@.len() <= usize::MAX,
        ensures
            n == 64 + self.payload@.len(),
    {
        64 + self.payload.len()
    }
}

/// Acknowledgment range.
#[derive(Debug, Clone, Copy, PartialEq, Eq, Structural)]
pub struct AckRange {
    /// First packet number in range
    pub first: u64,
    /// Last packet number in range
    pub last: u64,
}

impl AckRange {
    /// Create a new acknowledgment range.
    pub fn new(first: u64, last: u64) -> (r: Self)
        ensures
            r == (AckRange { first, last }),
    {
        AckRange { first, last }
    }

    /// Check if a packet number is in this range.
    pub fn contains(&self, packet_number: u64) -> (b: bool)
        ensures
            b == (self.first <= packet_number <= self.last),
    {
        packet_number >= self.first && packet_number <= self.last
    }

    /// The number of packet numbers in this range.
    pub fn size(&self) -> (n: u64)
        requires
            self.first <= self.last,
            self.last - self.first < u64::MAX,
        ensures
            n == self.last - self.first + 1,
    {
        self.last - self.first + 1
    }
}

/// `s` with `r` put after every range whose first packet number is not larger.
pub open spec fn insert_range(s: Seq<AckRange>, r: AckRange) -> Seq<AckRange>
    decreases s.len(),
{
    if s.len() == 0 {
        seq![r]
    } else if r.first < s.last().first {
        insert_range(s.drop_last(), r).push(s.last())
    } else {
        s.push(r)
    }
}

/// The ranges sorted by first packet number, ranges with equal first numbers in their order.
pub open spec fn sort_ranges(s: Seq<AckRange>) -> Seq<AckRange>
    decreases s.len(),
{
    if s.len() == 0 {
        s
    } else {
        insert_range(sort_ranges(s.drop_last()), s.last())
    }
}

/// Whether some range holds `pn`.
pub open spec fn spec_is_acked(rs: Seq<AckRange>, pn: u64) -> bool {
    exists|i: int| 0 <= i < rs.len() && (#[trigger] rs[i]).first <= pn <= rs[i].last
}

/// The bytes of the ranges: first and last of each, eight bytes each, big-endian.
pub open spec fn ranges_bytes(rs: Seq<AckRange>) -> Seq<u8>
    decreases rs.len(),
{
    if rs.len() == 0 {
        Seq::empty()
    } else {
        ranges_bytes(rs.drop_last()) + be64(rs.last().first) + be64(rs.last().last)
    }
}

/// The bytes `AckFrame::encode` writes: type 0x02, the largest acknowledged number, the delay
/// in whole microseconds (cut to 64 bits), the number of ranges, and the ranges.
pub open spec fn spec_encode_ack(largest: u64, delay: TimeSpan, rs: Seq<AckRange>) -> Seq<u8> {
    seq![2u8] + be64(largest) + be64((delay.nanos / 1000) as u64) + be64(rs.len() as u64)
        + ranges_bytes(rs)
}

/// What `AckFrame::decode` gives for `s`: the largest acknowledged number, the delay in
/// microseconds and the ranges, or the message of the `InvalidFrame` error.
pub open spec fn spec_decode_ack(s: Seq<u8>) -> Result<(u64, u64, Seq<AckRange>), Seq<char>> {
    if s.len() < 1 {
        Err("Empty ACK frame"@)
    } else if s[0] != 2 {
        Err("Not an ACK frame"@)
    } else if s.len() < 25 {
        Err("Incomplete ACK frame"@)
    } else {
        let count = (be64_at(s, 17) as u64) as usize as nat;
        if s.len() < 25 + 16 * count {
            Err("Incomplete ACK range"@)
        } else {
            Ok(
                (
                    be64_at(s, 1) as u64,
                    be64_at(s, 9) as u64,
                    Seq::new(
                        count,
                        |i: int|
                            AckRange {
                                first: be64_at(s, 25 + 16 * i) as u64,
                                last: be64_at(s, 33 + 16 * i) as u64,
                            },
                    ),
                ),
            )
        }
    }
}

fn insert_range_exec(v: &mut Vec<AckRange>, r: AckRange)
    ensures
        final(v)@ == insert_range(old(v)@, r),
{
    let mut j = v.len();
    while j > 0 && r.first < v[j - 1].first
        invariant
            j <= v.len(),
            forall|k: int| j <= k < v.len() ==> r.first < #[trigger] v@[k].first,
        decreases j,
    {
        j = j - 1;
    }
    proof {
        lemma_insert_range_at(v@, r, j as int);
    }
    v.insert(j, r);
}

proof fn lemma_insert_range_at(s: Seq<AckRange>, r: AckRange, j: int)
    requires
        0 <= j <= s.len(),
        forall|k: int| j <= k < s.len() ==> r.first < #[trigger] s[k].first,
        j > 0 ==> !(r.first < s[j - 1].first),
    ensures
        insert_range(s, r) == s.insert(j, r),
    decreases s.len(),
{
    if s.len() == 0 {
        assert(s.insert(j, r) =~= seq![r]);
    } else if j == s.len() {
        assert(s.insert(j, r) =~= s.push(r));
    } else {
        assert(r.first < s[s.len() - 1].first);
        lemma_insert_range_at(s.drop_last(), r, j);
        assert(s.insert(j, r) =~= s.drop_last().insert(j, r).push(s.last()));
    }
}

/// Acknowledgment frame.
#[derive(Debug, Clone)]
pub struct AckFrame {
    /// Largest acknowledged packet number
    pub largest_acked: u64,
    /// ACK delay
    pub ack_delay: TimeSpan,
    /// Acknowledgment ranges
    pub ranges: Vec<AckRange>,
}

impl AckFrame {
    /// Create a new ACK frame whose one range holds the largest acknowledged number.
    pub fn new(largest_acked: u64, ack_delay: TimeSpan) -> (f: Self)
        ensures
            f.largest_acked == largest_acked,
            f.ack_delay == ack_delay,
            f.ranges@ == seq![AckRange { first: largest_acked, last: largest_acked }],
    {
        let mut ranges: Vec<AckRange> = Vec::new();
        ranges.push(AckRange::new(largest_acked, largest_acked));
        AckFrame { largest_acked, ack_delay, ranges }
    }

    /// Add an acknowledgment range; the ranges are then sorted by first packet number, ranges
    /// with equal first numbers keeping their order.
    pub fn add_range(&mut self, first: u64, last: u64)
        ensures
            final(self).largest_acked == old(self).largest_acked,
            final(self).ack_delay == old(self).ack_delay,
            final(self).ranges@ == sort_ranges(old(self).ranges@.push(AckRange { first, last })),
    {
        self.ranges.push(AckRange::new(first, last));
        let mut sorted: Vec<AckRange> = Vec::new();
        for i in 0..self.ranges.len()
            invariant
                sorted@ == sort_ranges(self.ranges@.take(i as int)),
        {
            assert(self.ranges@.take(i + 1).drop_last() =~= self.ranges@.take(i as int));
            insert_range_exec(&mut sorted, self.ranges[i]);
        }
        assert(self.ranges@.take(self.ranges.len() as int) =~= self.ranges@);
        self.ranges = sorted;
    }

    /// Check if a packet number is acknowledged by some range.
    pub fn is_acked(&self, packet_number: u64) -> (b: bool)
        ensures
            b == spec_is_acked(self.ranges@, packet_number),
    {
        for i in 0..self.ranges.len()
            invariant
                forall|j: int|
                    0 <= j < i ==> !((#[trigger] self.ranges@[j]).first <= packet_number
                        <= self.ranges@[j].last),
        {
            if self.ranges[i].contains(packet_number) {
                return true;
            }
        }
        false
    }

    /// Encode the ACK frame to bytes.
    pub fn encode(&self) -> (res: H3Result<Vec<u8>>)
        ensures
            res matches Ok(b) && b@ == spec_encode_ack(
                self.largest_acked,
                self.ack_delay,
                self.ranges@,
            ),
    {
        let mut buffer: Vec<u8> = Vec::new();
        buffer.push(0x02);
        push_be64(&mut buffer, self.largest_acked);
        push_be64(&mut buffer, self.ack_delay.as_micros() as u64);
        push_be64(&mut buffer, self.ranges.len() as u64);
        let ghost head = buffer@;
        for i in 0..self.ranges.len()
            invariant
                buffer@ == head + ranges_bytes(self.ranges@.take(i as int)),
        {
            assert(self.ranges@.take(i + 1).drop_last() =~= self.ranges@.take(i as int));
            push_be64(&mut buffer, self.ranges[i].first);
            push_be64(&mut buffer, self.ranges[i].last);
            assert(buffer@ =~= head + ranges_bytes(self.ranges@.take(i + 1)));
        }
        assert(self.ranges@.take(self.ranges.len() as int) =~= self.ranges@);
        assert(buffer@ =~= spec_encode_ack(self.largest_acked, self.ack_delay, self.ranges@));
        Ok(buffer)
    }

    /// Decode an ACK frame from bytes (bytes after the last range are not read).
    pub fn decode(data: &[u8]) -> (res: H3Result<Self>)
        ensures
            match spec_decode_ack(data@) {
                Ok((largest, micros, rs)) => res matches Ok(f) && f.largest_acked == largest
                    && f.ack_delay.nanos == micros * 1000 && f.ranges@ == rs,
                Err(msg) => res matches Err(e) && is_invalid_frame(e, msg),
            },
    {
        let len = data.len();
        if len < 1 {
            return Err(invalid_frame("Empty ACK frame"));
        }
        if data[0] != 0x02 {
            return Err(invalid_frame("Not an ACK frame"));
        }
        if len - 1 < 24 {
            return Err(invalid_frame("Incomplete ACK frame"));
        }
        let largest_acked = read_be64(data, 1);
        let ack_delay_micros = read_be64(data, 9);
        let ack_delay = TimeSpan::from_micros(ack_delay_micros);
        let range_count = read_be64(data, 17) as usize;
        let ghost s = data@;
        let mut ranges: Vec<AckRange> = Vec::new();
        let mut pos: usize = 25;
        let mut i: usize = 0;
        while i < range_count
            invariant
                len == data@.len(),
                s == data@,
                s[0] == 2u8,
                len >= 25,
                range_count == (be64_at(s, 17) as u64) as usize,
                i <= range_count,
                pos == 25 + 16 * i,
                pos <= len,
                ranges@ == Seq::new(
                    i as nat,
                    |k: int|
                        AckRange {
                            first: be64_at(s, 25 + 16 * k) as u64,
                            last: be64_at(s, 33 + 16 * k) as u64,
                        },
                ),
            decreases range_count - i,
        {
            if len - pos < 16 {
                assert(data@.len() < 25 + 16 * (range_count as nat));
                return Err(invalid_frame("Incomplete ACK range"));
            }
            let first = read_be64(data, pos);
            let last = read_be64(data, pos + 8);
            ranges.push(AckRange::new(first, last));
            pos = pos + 16;
            i = i + 1;
            assert(ranges@ =~= Seq::new(
                i as nat,
                |k: int|
                    AckRange {
                        first: be64_at(s, 25 + 16 * k) as u64,
                        last: be64_at(s, 33 + 16 * k) as u64,
                    },
            ));
        }
        Ok(AckFrame { largest_acked, ack_delay, ranges })
    }
}

proof fn lemma_ranges_bytes(rs: Seq<AckRange>)
    ensures
        ranges_bytes(rs).len() == 16 * rs.len(),
        forall|i: int|
            0 <= i < rs.len() ==> #[trigger] ranges_bytes(rs).subrange(16 * i, 16 * i + 8) == be64(
                rs[i].first,
            ),
        forall|i: int|
            0 <= i < rs.len() ==> #[trigger] ranges_bytes(rs).subrange(16 * i + 8, 16 * i + 16)
                == be64(rs[i].last),
    decreases rs.len(),
{
    if rs.len() > 0 {
        let d = rs.drop_last();
        lemma_ranges_bytes(d);
        let n = rs.len() - 1;
        assert(ranges_bytes(rs) == ranges_bytes(d) + be64(rs[n].first) + be64(rs[n].last));
        assert forall|i: int| 0 <= i < rs.len() implies #[trigger] ranges_bytes(rs).subrange(
            16 * i,
            16 * i + 8,
        ) == be64(rs[i].first) by {
            if i < n {
                assert(ranges_bytes(rs).subrange(16 * i, 16 * i + 8) =~= ranges_bytes(d).subrange(
                    16 * i,
                    16 * i + 8,
                ));
            } else {
                assert(ranges_bytes(rs).subrange(16 * i, 16 * i + 8) =~= be64(rs[i].first));
            }
        }
        assert forall|i: int| 0 <= i < rs.len() implies #[trigger] ranges_bytes(rs).subrange(
            16 * i + 8,
            16 * i + 16,
        ) == be64(rs[i].last) by {
            if i < n {
                assert(ranges_bytes(rs).subrange(16 * i + 8, 16 * i + 16) =~= ranges_bytes(
                    d,
                ).subrange(16 * i + 8, 16 * i + 16));
            } else {
                assert(ranges_bytes(rs).subrange(16 * i + 8, 16 * i + 16) =~= be64(rs[i].last));
            }
        }
    }
}

/// Whether the ranges are in order of their first packet numbers.
pub open spec fn ranges_sorted(rs: Seq<AckRange>) -> bool {
    forall|i: int, j: int| 0 <= i < j < rs.len() ==> rs[i].first <= rs[j].first
}

proof fn lemma_insert_range_law(s: Seq<AckRange>, r: AckRange)
    ensures
        insert_range(s, r).to_multiset() == s.to_multiset().insert(r),
        ranges_sorted(s) ==> ranges_sorted(insert_range(s, r)),
    decreases s.len(),
{
    broadcast use vstd::seq_lib::group_to_multiset_ensures;

    if s.len() == 0 {
        assert(seq![r] =~= Seq::<AckRange>::empty().push(r));
    } else {
        let init = s.drop_last();
        assert(s =~= init.push(s.last()));
        if r.first < s.last().first {
            lemma_insert_range_law(init, r);
            let t = insert_range(init, r);
            assert(t.to_multiset() =~= init.to_multiset().insert(r));
            assert(t.push(s.last()).to_multiset() =~= s.to_multiset().insert(r));
            if ranges_sorted(s) {
                assert(ranges_sorted(init)) by {
                    assert forall|i: int, j: int| 0 <= i < j < init.len() implies init[i].first
                        <= init[j].first by {
                        assert(init[i] == s[i] && init[j] == s[j]);
                    }
                }
                assert forall|x: AckRange| #[trigger] t.to_multiset().count(x) > 0 implies x.first
                    <= s.last().first by {
                    if x != r {
                        assert(init.to_multiset().count(x) > 0);
                        assert(init.contains(x));
                        let k = choose|k: int| 0 <= k < init.len() && init[k] == x;
                        assert(s[k] == x);
                    }
                }
                assert forall|i: int, j: int| 0 <= i < j < t.push(s.last()).len() implies t.push(
                    s.last(),
                )[i].first <= t.push(s.last())[j].first by {
                    if j == t.len() {
                        assert(t.contains(t[i]));
                        assert(t.to_multiset().count(t[i]) > 0);
                    }
                }
            }
        } else {
            assert(s.push(r).to_multiset() =~= s.to_multiset().insert(r));
            if ranges_sorted(s) {
                assert forall|i: int, j: int| 0 <= i < j < s.push(r).len() implies s.push(r)[i].first
                    <= s.push(r)[j].first by {
                    if j == s.len() && i < s.len() - 1 {
                        assert(s[i].first <= s[s.len() - 1].first);
                    }
                }
            }
        }
    }
}

proof fn lemma_sort_ranges_law(s: Seq<AckRange>)
    ensures
        sort_ranges(s).to_multiset() == s.to_multiset(),
        ranges_sorted(sort_ranges(s)),
    decreases s.len(),
{
    broadcast use vstd::seq_lib::group_to_multiset_ensures;

    if s.len() > 0 {
        let init = s.drop_last();
        lemma_sort_ranges_law(init);
        lemma_insert_range_law(sort_ranges(init), s.last());
        assert(s =~= init.push(s.last()));
    }
}

/// Adding a range keeps the ranges a sorted rearrangement: after `add_range` the ranges are
/// those before with the new one added (as a multiset), in order of their first packet
/// numbers, and a packet is acknowledged exactly when it was before or lies in the new range.
pub proof fn lemma_add_range_law(rs: Seq<AckRange>, first: u64, last: u64, pn: u64)
    ensures
        ({
            let after = sort_ranges(rs.push(AckRange { first, last }));
            &&& after.to_multiset() == rs.to_multiset().insert(AckRange { first, last })
            &&& ranges_sorted(after)
            &&& spec_is_acked(after, pn) == (spec_is_acked(rs, pn) || (first <= pn && pn <= last))
        }),
{
    broadcast use vstd::seq_lib::group_to_multiset_ensures;

    let r = AckRange { first, last };
    let after = sort_ranges(rs.push(r));
    lemma_sort_ranges_law(rs.push(r));
    assert(after.to_multiset() =~= rs.to_multiset().insert(r));
    if spec_is_acked(after, pn) {
        let i = choose|i: int| 0 <= i < after.len() && (#[trigger] after[i]).first <= pn <= after[i].last;
        assert(after.contains(after[i]));
        assert(after.to_multiset().count(after[i]) > 0);
        if after[i] != r {
            assert(rs.to_multiset().count(after[i]) > 0);
            assert(rs.contains(after[i]));
            let k = choose|k: int| 0 <= k < rs.len() && rs[k] == after[i];
            assert(rs[k].first <= pn <= rs[k].last);
        }
    }
    if spec_is_acked(rs, pn) {
        let k = choose|k: int| 0 <= k < rs.len() && (#[trigger] rs[k]).first <= pn <= rs[k].last;
        assert(rs.contains(rs[k]));
        assert(after.to_multiset().count(rs[k]) > 0);
        assert(after.contains(rs[k]));
        let i = choose|i: int| 0 <= i < after.len() && after[i] == rs[k];
        assert(after[i].first <= pn <= after[i].last);
    }
    if first <= pn && pn <= last {
        assert(after.to_multiset().count(r) > 0);
        assert(after.contains(r));
        let i = choose|i: int| 0 <= i < after.len() && after[i] == r;
        assert(after[i].first <= pn <= after[i].last);
    }
}

/// Decoding the encoding of an ACK frame (followed by anything) gives back its largest
/// acknowledged number and its ranges, and the delay in whole microseconds.
pub proof fn lemma_ack_roundtrip(largest: u64, delay: TimeSpan, rs: Seq<AckRange>, rest: Seq<u8>)
    requires
        rs.len() <= usize::MAX,
    ensures
        spec_decode_ack(spec_encode_ack(largest, delay, rs) + rest) == Ok::<
            (u64, u64, Seq<AckRange>),
            Seq<char>,
        >((largest, (delay.nanos / 1000) as u64, rs)),
{
    let micros = (delay.nanos / 1000) as u64;
    let n = rs.len() as u64;
    let e = spec_encode_ack(largest, delay, rs);
    let s = e + rest;
    lemma_ranges_bytes(rs);
    assert(s[0] == 2u8);
    assert(s.subrange(1, 9) =~= be64(largest));
    assert(s.subrange(9, 17) =~= be64(micros));
    assert(s.subrange(17, 25) =~= be64(n));
    lemma_be64_roundtrip(largest, s, 1);
    lemma_be64_roundtrip(micros, s, 9);
    lemma_be64_roundtrip(n, s, 17);
    assert((n as usize) as nat == rs.len());
    let rb = ranges_bytes(rs);
    assert forall|i: int| 0 <= i < rs.len() implies be64_at(s, 25 + 16 * i) == rs[i].first
        && be64_at(s, 33 + 16 * i) == rs[i].last by {
        assert(ranges_bytes(rs).subrange(16 * i, 16 * i + 8) == be64(rs[i].first));
        assert(ranges_bytes(rs).subrange(16 * i + 8, 16 * i + 16) == be64(rs[i].last));
        assert(s.subrange(25 + 16 * i, 25 + 16 * i + 8) =~= rb.subrange(16 * i, 16 * i + 8));
        assert(s.subrange(33 + 16 * i, 33 + 16 * i + 8) =~= rb.subrange(16 * i + 8, 16 * i + 16));
        lemma_be64_roundtrip(rs[i].first, s, 25 + 16 * i);
        lemma_be64_roundtrip(rs[i].last, s, 33 + 16 * i);
    }
    assert(Seq::new(
        rs.len(),
        |i: int|
            AckRange {
                first: be64_at(s, 25 + 16 * i) as u64,
                last: be64_at(s, 33 + 16 * i) as u64,
            },
    ) =~= rs);
}


/// `s` with `x` put after every number that is not larger.
pub open spec fn insert_number(s: Seq<u64>, x: u64) -> Seq<u64>
    decreases s.len(),
{
    if s.len() == 0 {
        seq![x]
    } else if x < s.last() {
        insert_number(s.drop_last(), x).push(s.last())
    } else {
        s.push(x)
    }
}

/// The numbers of `s` in ascending order.
pub open spec fn sorted_numbers(s: Seq<u64>) -> Seq<u64>
    decreases s.len(),
{
    if s.len() == 0 {
        s
    } else {
        insert_number(sorted_numbers(s.drop_last()), s.last())
    }
}

/// The largest number of a non-empty sequence.
pub open spec fn seq_max(s: Seq<u64>) -> u64
    decreases s.len(),
{
    if s.len() <= 1 {
        s[0]
    } else {
        let m = seq_max(s.drop_last());
        if s.last() > m {
            s.last()
        } else {
            m
        }
    }
}

/// Scanning numbers for runs of consecutive numbers: the start and end of the current run,
/// and the runs of more than one number finished before it.
pub open spec fn run_scan(s: Seq<u64>) -> (u64, u64, Seq<AckRange>)
    decreases s.len(),
{
    if s.len() <= 1 {
        (s[0], s[0], Seq::empty())
    } else {
        let (st, en, acc) = run_scan(s.drop_last());
        let x = s.last();
        if x == en + 1 {
            (st, x, acc)
        } else {
            (
                x,
                x,
                if st != en {
                    acc.push(AckRange { first: st, last: en })
                } else {
                    acc
                },
            )
        }
    }
}

/// The runs of more than one consecutive number in `s`, in order.
pub open spec fn multi_runs(s: Seq<u64>) -> Seq<AckRange> {
    let (st, en, acc) = run_scan(s);
    if st != en {
        acc.push(AckRange { first: st, last: en })
    } else {
        acc
    }
}

/// The ranges `rs` after `add_range` with each of `adds`, in order.
pub open spec fn ranges_after_adds(rs: Seq<AckRange>, adds: Seq<AckRange>) -> Seq<AckRange>
    decreases adds.len(),
{
    if adds.len() == 0 {
        rs
    } else {
        sort_ranges(ranges_after_adds(rs, adds.drop_last()).push(adds.last()))
    }
}

/// The ranges of the ACK frame for the received numbers `r`: the largest on its own, then
/// each run of more than one consecutive number (a number that is in no such run and is not
/// the largest is not acknowledged).
pub open spec fn ack_ranges_for(r: Seq<u64>) -> Seq<AckRange> {
    let largest = seq_max(r);
    ranges_after_adds(
        seq![AckRange { first: largest, last: largest }],
        multi_runs(sorted_numbers(r)),
    )
}

proof fn lemma_insert_number_at(s: Seq<u64>, x: u64, j: int)
    requires
        0 <= j <= s.len(),
        forall|k: int| j <= k < s.len() ==> x < #[trigger] s[k],
        j > 0 ==> !(x < s[j - 1]),
    ensures
        insert_number(s, x) == s.insert(j, x),
    decreases s.len(),
{
    if s.len() == 0 {
        assert(s.insert(j, x) =~= seq![x]);
    } else if j == s.len() {
        assert(s.insert(j, x) =~= s.push(x));
    } else {
        assert(x < s[s.len() - 1]);
        lemma_insert_number_at(s.drop_last(), x, j);
        assert(s.insert(j, x) =~= s.drop_last().insert(j, x).push(s.last()));
    }
}

fn sort_numbers(v: &Vec<u64>) -> (r: Vec<u64>)
    ensures
        r@ == sorted_numbers(v@),
{
    let mut r: Vec<u64> = Vec::new();
    for i in 0..v.len()
        invariant
            r@ == sorted_numbers(v@.take(i as int)),
    {
        assert(v@.take(i + 1).drop_last() =~= v@.take(i as int));
        let x = v[i];
        let mut j = r.len();
        while j > 0 && x < r[j - 1]
            invariant
                j <= r.len(),
                forall|k: int| j <= k < r.len() ==> x < #[trigger] r@[k],
            decreases j,
        {
            j = j - 1;
        }
        proof {
            lemma_insert_number_at(r@, x, j as int);
        }
        r.insert(j, x);
    }
    assert(v@.take(v.len() as int) =~= v@);
    r
}

fn max_number(v: &Vec<u64>) -> (m: u64)
    requires
        v.len() > 0,
    ensures
        m == seq_max(v@),
{
    let mut m = v[0];
    assert(v@.take(1).len() == 1);
    for i in 1..v.len()
        invariant
            v.len() > 0,
            m == seq_max(v@.take(i as int)),
    {
        assert(v@.take(i + 1).drop_last() =~= v@.take(i as int));
        if v[i] > m {
            m = v[i];
        }
    }
    assert(v@.take(v.len() as int) =~= v@);
    m
}

/// The ACK frame for the received packet numbers `received` (in any order, possibly
/// repeated) with delay `ack_delay`: the largest number is acknowledged, and each run of more
/// than one consecutive number.
pub fn ack_frame_for(received: &Vec<u64>, ack_delay: TimeSpan) -> (f: AckFrame)
    requires
        received.len() > 0,
    ensures
        f.largest_acked == seq_max(received@),
        f.ack_delay == ack_delay,
        f.ranges@ == ack_ranges_for(received@),
{
    let largest_acked = max_number(received);
    let mut frame = AckFrame::new(largest_acked, ack_delay);
    let ghost init = frame.ranges@;
    let sorted = sort_numbers(received);
    proof {
        lemma_sorted_numbers_len(received@);
    }
    let mut range_start = sorted[0];
    let mut range_end = sorted[0];
    assert(sorted@.take(1).len() == 1);
    for i in 1..sorted.len()
        invariant
            sorted.len() > 0,
            frame.largest_acked == largest_acked,
            frame.ack_delay == ack_delay,
            ({
                let (st, en, acc) = run_scan(sorted@.take(i as int));
                &&& range_start == st
                &&& range_end == en
                &&& frame.ranges@ == ranges_after_adds(init, acc)
            }),
    {
        let packet_num = sorted[i];
        let ghost prev = run_scan(sorted@.take(i as int));
        assert(sorted@.take(i + 1).drop_last() =~= sorted@.take(i as int));
        if range_end < u64::MAX && packet_num == range_end + 1 {
            range_end = packet_num;
        } else {
            if range_start != range_end {
                proof {
                    let acc2 = prev.2.push(AckRange { first: range_start, last: range_end });
                    assert(acc2.drop_last() =~= prev.2);
                }
                frame.add_range(range_start, range_end);
            }
            range_start = packet_num;
            range_end = packet_num;
        }
    }
    assert(sorted@.take(sorted.len() as int) =~= sorted@);
    if range_start != range_end {
        proof {
            let (st, en, acc) = run_scan(sorted@);
            assert(acc.push(AckRange { first: st, last: en }).drop_last() =~= acc);
        }
        frame.add_range(range_start, range_end);
    }
    frame
}

proof fn lemma_insert_number_len(s: Seq<u64>, x: u64)
    ensures
        insert_number(s, x).len() == s.len() + 1,
    decreases s.len(),
{
    if s.len() > 0 && x < s.last() {
        lemma_insert_number_len(s.drop_last(), x);
    }
}

proof fn lemma_sorted_numbers_len(s: Seq<u64>)
    ensures
        sorted_numbers(s).len() == s.len(),
    decreases s.len(),
{
    if s.len() > 0 {
        lemma_sorted_numbers_len(s.drop_last());
        lemma_insert_number_len(sorted_numbers(s.drop_last()), s.last());
    }
}

/// The values of a sequence of packets.
pub open spec fn packets_view(s: Seq<Packet>) -> Seq<PacketModel> {
    s.map_values(|p: Packet| p@)
}

spec fn packet_models(m: Map<u64, Packet>) -> Map<u64, PacketModel> {
    Map::new(|k: u64| m.contains_key(k), |k: u64| m[k]@)
}

/// The packets of `m` under the keys `ks`, in order.
pub open spec fn values_at(m: Map<u64, PacketModel>, ks: Seq<u64>) -> Seq<PacketModel> {
    ks.map_values(|k: u64| m[k])
}

/// The state of an acknowledgment tracker.
pub struct TrackerModel {
    /// Sent packets not yet acknowledged, by packet number.
    pub unacked: Map<u64, PacketModel>,
    /// The most recent received packet numbers, oldest first.
    pub received: Seq<u64>,
    /// Whether an ACK frame has been generated.
    pub has_sent_ack: bool,
    pub ack_delay_threshold: TimeSpan,
}

/// The last 1000 numbers of `s` (all of them when there are fewer).
pub open spec fn keep_recent(s: Seq<u64>) -> Seq<u64> {
    if s.len() > 1000 {
        s.skip(s.len() - 1000)
    } else {
        s
    }
}

/// The packets of `unacked` that the ranges acknowledge, in the order of `ks`.
pub open spec fn acked_over(unacked: Map<u64, PacketModel>, ks: Seq<u64>, rs: Seq<AckRange>) -> Seq<
    PacketModel,
>
    decreases ks.len(),
{
    if ks.len() == 0 {
        Seq::empty()
    } else {
        let r = acked_over(unacked, ks.drop_last(), rs);
        if spec_is_acked(rs, ks.last()) {
            r.push(unacked[ks.last()])
        } else {
            r
        }
    }
}

/// The packets of `unacked` that the ranges do not acknowledge.
pub open spec fn unacked_after(unacked: Map<u64, PacketModel>, rs: Seq<AckRange>) -> Map<
    u64,
    PacketModel,
> {
    Map::new(|k: u64| unacked.contains_key(k) && !spec_is_acked(rs, k), |k: u64| unacked[k])
}

/// Packet acknowledgment tracker.
#[derive(Debug)]
pub struct AckTracker {
    unacked_packets: HashMap<u64, Packet>,
    received_packets: VecDeque<u64>,
    last_ack_sent: Option<Instant>,
    ack_delay_threshold: TimeSpan,
}

impl View for AckTracker {
    type V = TrackerModel;

    closed spec fn view(&self) -> TrackerModel {
        TrackerModel {
            unacked: packet_models(self.unacked_packets@),
            received: self.received_packets@,
            has_sent_ack: self.last_ack_sent is Some,
            ack_delay_threshold: self.ack_delay_threshold,
        }
    }
}

fn trim_recent(q: &mut VecDeque<u64>)
    ensures
        final(q)@ == keep_recent(old(q)@),
{
    let ghost s = q@;
    while q.len() > 1000
        invariant
            q@.len() <= s.len(),
            q@ == s.skip(s.len() - q@.len()),
            s.len() <= 1000 ==> q@.len() == s.len(),
            s.len() > 1000 ==> q@.len() >= 1000,
        decreases q@.len(),
    {
        let _ = q.pop_front();
        assert(q@ =~= s.skip(s.len() - q@.len()));
    }
    assert(s.skip(0) =~= s);
}

fn take_acked(
    unacked: &mut HashMap<u64, Packet>,
    keys: &Vec<u64>,
    ack_frame: &AckFrame,
) -> (out: Vec<Packet>)
    requires
        keys@.to_set() == old(unacked)@.dom(),
        keys@.no_duplicates(),
    ensures
        packet_models(final(unacked)@) == unacked_after(
            packet_models(old(unacked)@),
            ack_frame.ranges@,
        ),
        packets_view(out@) == acked_over(packet_models(old(unacked)@), keys@, ack_frame.ranges@),
{
    let ghost before = unacked@;
    let mut out: Vec<Packet> = Vec::new();
    for i in 0..keys.len()
        invariant
            keys@.to_set() == before.dom(),
            keys@.no_duplicates(),
            forall|k: u64|
                #[trigger] unacked@.contains_key(k) == (before.contains_key(k) && !(keys@.take(
                    i as int,
                ).contains(k) && spec_is_acked(ack_frame.ranges@, k))),
            forall|k: u64| #[trigger] unacked@.contains_key(k) ==> unacked@[k] == before[k],
            packets_view(out@) == acked_over(
                packet_models(before),
                keys@.take(i as int),
                ack_frame.ranges@,
            ),
    {
        let k = keys[i];
        proof {
            lemma_take_next(keys@, i as int);
            lemma_not_in_prefix(keys@, i as int);
            assert(keys@.to_set().contains(k));
            assert(keys@.take(i + 1).drop_last() =~= keys@.take(i as int));
        }
        if ack_frame.is_acked(k) {
            match unacked.remove(&k) {
                Some(p) => {
                    out.push(p);
                },
                None => {},
            }
        }
        assert(packets_view(out@) =~= acked_over(
            packet_models(before),
            keys@.take(i + 1),
            ack_frame.ranges@,
        ));
    }
    assert(keys@.take(keys.len() as int) =~= keys@);
    assert(packet_models(unacked@) =~= unacked_after(packet_models(before), ack_frame.ranges@)) by {
        assert forall|k: u64| before.contains_key(k) implies keys@.contains(k) by {
            assert(keys@.to_set().contains(k));
        }
    }
    out
}

impl AckTracker {
    /// Create a new acknowledgment tracker: nothing tracked, an ACK delay threshold of 25 ms.
    pub fn new() -> (t: Self)
        ensures
            t@ == (TrackerModel {
                unacked: Map::empty(),
                received: Seq::empty(),
                has_sent_ack: false,
                ack_delay_threshold: TimeSpan { nanos: 25_000_000 },
            }),
    {
        let t = AckTracker {
            unacked_packets: HashMap::new(),
            received_packets: VecDeque::new(),
            last_ack_sent: None,
            ack_delay_threshold: TimeSpan::from_millis(25),
        };
        assert(t@.unacked =~= Map::empty());
        t
    }

    /// Track a sent packet; only packets that ask for acknowledgment are kept.
    pub fn track_sent(&mut self, packet: Packet)
        ensures
            final(self)@ == (TrackerModel {
                unacked: if packet.ack_eliciting {
                    old(self)@.unacked.insert(packet.header.packet_number, packet@)
                } else {
                    old(self)@.unacked
                },
                ..old(self)@
            }),
    {
        if packet.ack_eliciting {
            let pn = packet.header.packet_number;
            let ghost pv = packet@;
            self.unacked_packets.insert(pn, packet);
            assert(packet_models(self.unacked_packets@) =~= packet_models(
                old(self).unacked_packets@,
            ).insert(pn, pv));
        }
    }

    /// Track a received packet number; only the last 1000 are kept.
    pub fn track_received(&mut self, packet_number: u64)
        ensures
            final(self)@ == (TrackerModel {
                received: keep_recent(old(self)@.received.push(packet_number)),
                ..old(self)@
            }),
    {
        self.received_packets.push_back(packet_number);
        trim_recent(&mut self.received_packets);
    }

    /// Process an ACK frame: the packets it acknowledges are removed and handed back, in no
    /// particular order.
    pub fn process_ack(&mut self, ack_frame: &AckFrame) -> (acked: Vec<Packet>)
        ensures
            final(self)@ == (TrackerModel {
                unacked: unacked_after(old(self)@.unacked, ack_frame.ranges@),
                ..old(self)@
            }),
            exists|ks: Seq<u64>|
                ks.no_duplicates() && ks.to_set() == old(self)@.unacked.dom() && packets_view(
                    acked@,
                ) == acked_over(old(self)@.unacked, ks, ack_frame.ranges@),
    {
        let keys = collect_keys(&self.unacked_packets);
        assert(packet_models(self.unacked_packets@).dom() =~= self.unacked_packets@.dom());
        take_acked(&mut self.unacked_packets, &keys, ack_frame)
    }

    /// Generate an ACK frame for the received packets. None when nothing was received, or
    /// when the last ACK frame was generated no longer than the ACK delay threshold ago (by
    /// the clock). The frame's delay is the time since the last ACK frame (by the clock), zero
    /// for the first. (See `generate_ack_at`, which this calls with the clock's readings.)
    pub fn generate_ack(&mut self) -> (f: Option<AckFrame>)
        ensures
            old(self)@.received.len() == 0 ==> f is None,
            old(self)@.received.len() > 0 && !old(self)@.has_sent_ack ==> f is Some,
            f is None && old(self)@.received.len() > 0 ==> old(self)@.has_sent_ack,
            f matches Some(fr) ==> (old(self)@.has_sent_ack ==> fr.ack_delay.nanos
                > old(self)@.ack_delay_threshold.nanos),
            f is None ==> final(self)@ == old(self)@,
            f matches Some(frame) ==> {
                &&& frame.largest_acked == seq_max(old(self)@.received)
                &&& frame.ranges@ == ack_ranges_for(old(self)@.received)
                &&& !old(self)@.has_sent_ack ==> frame.ack_delay.nanos == 0
                &&& final(self)@ == TrackerModel { has_sent_ack: true, ..old(self)@ }
            },
    {
        if self.received_packets.len() == 0 {
            return None;
        }
        let since = match &self.last_ack_sent {
            Some(last) => crate::time::elapsed_since(last),
            None => TimeSpan::zero(),
        };
        let now = crate::time::now();
        self.generate_ack_at(since, now)
    }

    /// ACK generation, given the clock's readings: `since_last_ack` is the time since the last
    /// ACK frame (read only when one was generated before) and `now` is recorded as the time
    /// of this one. Nothing is generated when nothing was received, or when an ACK frame was
    /// generated before and `since_last_ack` is not above the ACK delay threshold. Otherwise
    /// the frame acknowledges the received numbers, with `since_last_ack` as its delay (zero
    /// for the first frame), and the tracker records that an ACK frame was generated.
    pub fn generate_ack_at(&mut self, since_last_ack: TimeSpan, now: Instant) -> (f: Option<
        AckFrame,
    >)
        ensures
            ({
                let m = old(self)@;
                if m.received.len() == 0 || (m.has_sent_ack && since_last_ack.nanos
                    <= m.ack_delay_threshold.nanos) {
                    f is None && final(self)@ == m
                } else {
                    f matches Some(frame) && frame.largest_acked == seq_max(m.received)
                        && frame.ranges@ == ack_ranges_for(m.received) && frame.ack_delay == (
                    if m.has_sent_ack {
                        since_last_ack
                    } else {
                        TimeSpan { nanos: 0 }
                    }) && final(self)@ == (TrackerModel { has_sent_ack: true, ..m })
                }
            }),
    {
        if self.received_packets.len() == 0 {
            return None;
        }
        let should_ack = match &self.last_ack_sent {
            Some(_) => since_last_ack.nanos > self.ack_delay_threshold.nanos,
            None => true,
        };
        if !should_ack {
            return None;
        }
        let mut received: Vec<u64> = Vec::new();
        for i in 0..self.received_packets.len()
            invariant
                received@ == self.received_packets@.take(i as int),
        {
            received.push(self.received_packets[i]);
            assert(received@ =~= self.received_packets@.take(i + 1));
        }
        assert(received@ =~= self.received_packets@);
        let ack_delay = match &self.last_ack_sent {
            Some(_) => since_last_ack,
            None => TimeSpan::zero(),
        };
        let frame = ack_frame_for(&received, ack_delay);
        self.last_ack_sent = Some(now);
        Some(frame)
    }

    /// Get the tracked packets sent longer than `rto` ago (by the clock), as copies, in no
    /// particular order (see `lost_packets_given_ages`, which this calls with every tracked
    /// packet's age by the clock).
    pub fn get_lost_packets(&self, rto: TimeSpan) -> (lost: Vec<Packet>)
        ensures
            exists|ages: Seq<(u64, TimeSpan)>|
                {
                    &&& age_keys(ages).no_duplicates()
                    &&& age_keys(ages).to_set() == self@.unacked.dom()
                    &&& packets_view(lost@) == values_at(self@.unacked, lost_from(ages, rto))
                },
    {
        let ages = packet_ages(self);
        proof {
            assert forall|i: int| 0 <= i < ages@.len() implies self@.unacked.contains_key(
                #[trigger] ages@[i].0,
            ) by {
                assert(age_keys(ages@)[i] == ages@[i].0);
                assert(age_keys(ages@).to_set().contains(ages@[i].0));
            }
        }
        self.lost_packets_given_ages(&ages, rto)
    }

    /// Copies of the tracked packets that `ages` gives an age above `rto`, in the order of
    /// `ages`.
    pub fn lost_packets_given_ages(&self, ages: &Vec<(u64, TimeSpan)>, rto: TimeSpan) -> (lost:
        Vec<Packet>)
        requires
            forall|i: int| 0 <= i < ages@.len() ==> self@.unacked.contains_key(#[trigger] ages@[i].0),
        ensures
            packets_view(lost@) == values_at(self@.unacked, lost_from(ages@, rto)),
    {
        let mut lost: Vec<Packet> = Vec::new();
        for i in 0..ages.len()
            invariant
                forall|j: int| 0 <= j < ages@.len() ==> self@.unacked.contains_key(
                    #[trigger] ages@[j].0,
                ),
                packets_view(lost@) == values_at(self@.unacked, lost_from(ages@.take(i as int), rto)),
        {
            let ghost prefix = ages@.take(i + 1);
            assert(prefix.drop_last() =~= ages@.take(i as int));
            assert(prefix.last() == ages@[i as int]);
            if ages[i].1.nanos > rto.nanos {
                let k = ages[i].0;
                assert(self@.unacked.contains_key(ages@[i as int].0));
                assert(packet_models(self.unacked_packets@).contains_key(k));
                match self.unacked_packets.get(&k) {
                    Some(p) => {
                        let ghost old_lost = lost@;
                        let ghost old_keys = lost_from(ages@.take(i as int), rto);
                        let q = copy_packet(p);
                        lost.push(q);
                        proof {
                            assert(self@.unacked[k] == p@);
                            assert(packets_view(lost@) =~= packets_view(old_lost).push(q@));
                            assert(values_at(self@.unacked, old_keys.push(k)) =~= values_at(
                                self@.unacked,
                                old_keys,
                            ).push(self@.unacked[k]));
                        }
                    },
                    None => {
                        assert(false);
                    },
                }
            }
        }
        assert(ages@.take(ages.len() as int) =~= ages@);
        lost
    }

    /// Get the number of unacknowledged packets.
    pub fn unacked_count(&self) -> (n: usize)
        ensures
            n == self@.unacked.len(),
    {
        assert(packet_models(self.unacked_packets@).dom() =~= self.unacked_packets@.dom());
        self.unacked_packets.len()
    }
}

impl Default for AckTracker {
    fn default() -> (t: Self)
        ensures
            t@ == (TrackerModel {
                unacked: Map::empty(),
                received: Seq::empty(),
                has_sent_ack: false,
                ack_delay_threshold: TimeSpan { nanos: 25_000_000 },
            }),
    {
        AckTracker::new()
    }
}

/// The state of an RTT estimator.
pub struct RttModel {
    pub srtt: Option<TimeSpan>,
    pub rttvar: TimeSpan,
    pub min_rtt: Option<TimeSpan>,
}

/// The distance between two spans.
pub open spec fn span_distance(a: TimeSpan, b: TimeSpan) -> nat {
    if a.nanos > b.nanos {
        (a.nanos - b.nanos) as nat
    } else {
        (b.nanos - a.nanos) as nat
    }
}

/// The estimator after an RTT sample `x`: the minimum is kept; the first sample sets the
/// smoothed RTT to `x` and the variation to half of it; later samples move the smoothed RTT
/// by 1/8 and the variation by 1/4 towards the new values (times in nanoseconds, rounded down).
pub open spec fn rtt_update(m: RttModel, x: TimeSpan) -> RttModel {
    let min = match m.min_rtt {
        Some(mn) => if x.nanos < mn.nanos {
            x
        } else {
            mn
        },
        None => x,
    };
    match m.srtt {
        None => RttModel {
            srtt: Some(x),
            rttvar: TimeSpan { nanos: x.nanos / 2 },
            min_rtt: Some(min),
        },
        Some(s) => RttModel {
            srtt: Some(TimeSpan { nanos: ((7 * s.nanos + x.nanos) / 8) as u128 }),
            rttvar: TimeSpan { nanos: ((3 * m.rttvar.nanos + span_distance(x, s)) / 4) as u128 },
            min_rtt: Some(min),
        },
    }
}

/// Whether the arithmetic of `rtt_update` stays within the longest span (beyond it the
/// computation overflows).
pub open spec fn rtt_update_fits(m: RttModel, x: TimeSpan) -> bool {
    match m.srtt {
        None => true,
        Some(s) => {
            &&& 3 * m.rttvar.nanos + span_distance(x, s) <= MAX_SPAN_NANOS
            &&& 7 * s.nanos + x.nanos <= MAX_SPAN_NANOS
        },
    }
}

/// The retransmission timeout base: the smoothed RTT (500 ms before any sample) plus four
/// times the variation.
pub open spec fn rto_base(m: RttModel) -> nat {
    let s = match m.srtt {
        Some(s) => s.nanos,
        None => 500_000_000u128,
    };
    (s + 4 * m.rttvar.nanos) as nat
}

/// The retransmission timeout: the base, at least 200 ms.
pub open spec fn spec_rto(m: RttModel) -> TimeSpan {
    if rto_base(m) >= 200_000_000 {
        TimeSpan { nanos: rto_base(m) as u128 }
    } else {
        TimeSpan { nanos: 200_000_000 }
    }
}

/// RTT estimator.
#[derive(Debug)]
pub struct RttEstimator {
    srtt: Option<TimeSpan>,
    rttvar: TimeSpan,
    min_rtt: Option<TimeSpan>,
}

impl View for RttEstimator {
    type V = RttModel;

    closed spec fn view(&self) -> RttModel {
        RttModel { srtt: self.srtt, rttvar: self.rttvar, min_rtt: self.min_rtt }
    }
}

impl RttEstimator {
    /// Create a new RTT estimator: no sample yet, a variation of 250 ms.
    pub fn new() -> (e: Self)
        ensures
            e@ == (RttModel { srtt: None, rttvar: TimeSpan { nanos: 250_000_000 }, min_rtt: None }),
    {
        RttEstimator { srtt: None, rttvar: TimeSpan::from_millis(250), min_rtt: None }
    }

    /// Update the RTT estimate with a new sample.
    pub fn update(&mut self, rtt_sample: TimeSpan)
        requires
            rtt_update_fits(old(self)@, rtt_sample),
            rtt_sample.nanos <= MAX_SPAN_NANOS,
        ensures
            final(self)@ == rtt_update(old(self)@, rtt_sample),
    {
        self.min_rtt = Some(
            match self.min_rtt {
                Some(min) => if rtt_sample.nanos < min.nanos {
                    rtt_sample
                } else {
                    min
                },
                None => rtt_sample,
            },
        );
        match self.srtt {
            None => {
                self.srtt = Some(rtt_sample);
                self.rttvar = TimeSpan { nanos: rtt_sample.nanos / 2 };
            },
            Some(srtt) => {
                let rttvar_sample = if rtt_sample.nanos > srtt.nanos {
                    rtt_sample.nanos - srtt.nanos
                } else {
                    srtt.nanos - rtt_sample.nanos
                };
                self.rttvar = TimeSpan { nanos: (3 * self.rttvar.nanos + rttvar_sample) / 4 };
                self.srtt = Some(TimeSpan { nanos: (7 * srtt.nanos + rtt_sample.nanos) / 8 });
            },
        }
    }

    /// Get the current retransmission timeout; it is never below 200 ms.
    pub fn rto(&self) -> (t: TimeSpan)
        requires
            rto_base(self@) <= MAX_SPAN_NANOS,
        ensures
            t == spec_rto(self@),
            t.nanos >= 200_000_000,
    {
        let base = match self.srtt {
            Some(s) => s.nanos,
            None => 500_000_000,
        } + 4 * self.rttvar.nanos;
        if base >= 200_000_000 {
            TimeSpan { nanos: base }
        } else {
            TimeSpan::from_millis(200)
        }
    }

    /// Get the smoothed RTT.
    pub fn srtt(&self) -> (s: Option<TimeSpan>)
        ensures
            s == self@.srtt,
    {
        self.srtt
    }

    /// Get the minimum RTT.
    pub fn min_rtt(&self) -> (s: Option<TimeSpan>)
        ensures
            s == self@.min_rtt,
    {
        self.min_rtt
    }
}

impl Default for RttEstimator {
    fn default() -> (e: Self)
        ensures
            e@ == (RttModel { srtt: None, rttvar: TimeSpan { nanos: 250_000_000 }, min_rtt: None }),
    {
        RttEstimator::new()
    }
}

/// The state of a loss detector.
pub struct LossModel {
    pub rtt: RttModel,
    pub rto: TimeSpan,
    pub packet_threshold: u64,
    pub time_threshold: TimeSpan,
}

/// The packet numbers of `ages`, in order.
pub open spec fn age_keys(ages: Seq<(u64, TimeSpan)>) -> Seq<u64> {
    Seq::new(ages.len(), |i: int| ages[i].0)
}

/// The packet numbers that `ages` gives an age above `rto`, in the order of `ages`.
pub open spec fn lost_from(ages: Seq<(u64, TimeSpan)>, rto: TimeSpan) -> Seq<u64>
    decreases ages.len(),
{
    if ages.len() == 0 {
        Seq::empty()
    } else if ages.last().1.nanos > rto.nanos {
        lost_from(ages.drop_last(), rto).push(ages.last().0)
    } else {
        lost_from(ages.drop_last(), rto)
    }
}

proof fn lemma_lost_from(ages: Seq<(u64, TimeSpan)>, rto: TimeSpan)
    ensures
        forall|k: u64| #[trigger] lost_from(ages, rto).contains(k) ==> age_keys(ages).contains(k),
        age_keys(ages).no_duplicates() ==> lost_from(ages, rto).no_duplicates(),
    decreases ages.len(),
{
    if ages.len() > 0 {
        let init = ages.drop_last();
        lemma_lost_from(init, rto);
        assert(age_keys(ages) =~= age_keys(init).push(ages.last().0));
        lemma_push_contains(age_keys(init), ages.last().0);
        let r = lost_from(init, rto);
        if ages.last().1.nanos > rto.nanos {
            lemma_push_contains(r, ages.last().0);
            if age_keys(ages).no_duplicates() {
                assert(age_keys(init).no_duplicates()) by {
                    assert forall|i: int, j: int| 0 <= i < j < age_keys(init).len() implies age_keys(
                        init,
                    )[i] != age_keys(init)[j] by {
                        assert(age_keys(init)[i] == age_keys(ages)[i]);
                        assert(age_keys(init)[j] == age_keys(ages)[j]);
                    }
                }
                assert(!age_keys(init).contains(ages.last().0)) by {
                    if age_keys(init).contains(ages.last().0) {
                        let j = choose|j: int| 0 <= j < age_keys(init).len() && age_keys(init)[j]
                            == ages.last().0;
                        assert(age_keys(ages)[j] == age_keys(ages)[ages.len() - 1]);
                    }
                }
                lemma_push_no_duplicates(r, ages.last().0);
            }
        } else {
            if age_keys(ages).no_duplicates() {
                assert(age_keys(init).no_duplicates()) by {
                    assert forall|i: int, j: int| 0 <= i < j < age_keys(init).len() implies age_keys(
                        init,
                    )[i] != age_keys(init)[j] by {
                        assert(age_keys(init)[i] == age_keys(ages)[i]);
                        assert(age_keys(init)[j] == age_keys(ages)[j]);
                    }
                }
            }
        }
    }
}

/// Each tracked packet with its age by the clock now: every tracked packet, each once.
fn packet_ages(t: &AckTracker) -> (ages: Vec<(u64, TimeSpan)>)
    ensures
        age_keys(ages@).no_duplicates(),
        age_keys(ages@).to_set() == t@.unacked.dom(),
{
    let now = crate::time::now();
    let keys = collect_keys(&t.unacked_packets);
    let mut ages: Vec<(u64, TimeSpan)> = Vec::new();
    for i in 0..keys.len()
        invariant
            keys@.to_set() == t.unacked_packets@.dom(),
            age_keys(ages@) == keys@.take(i as int),
    {
        let k = keys[i];
        proof {
            assert(keys@.to_set().contains(k));
        }
        match t.unacked_packets.get(&k) {
            Some(p) => {
                let age = crate::time::duration_between(&now, &p.timestamp);
                let ghost before = ages@;
                ages.push((k, age));
                assert(age_keys(ages@) =~= age_keys(before).push(k));
                assert(keys@.take(i + 1) =~= keys@.take(i as int).push(k));
            },
            None => {
                assert(false);
            },
        }
    }
    assert(keys@.take(keys.len() as int) =~= keys@);
    assert(packet_models(t.unacked_packets@).dom() =~= t.unacked_packets@.dom());
    ages
}

/// Loss detection and recovery.
#[derive(Debug)]
pub struct LossDetector {
    rtt_estimator: RttEstimator,
    rto: TimeSpan,
    loss_timer: Option<Instant>,
    packet_threshold: u64,
    time_threshold: TimeSpan,
}

impl View for LossDetector {
    type V = LossModel;

    closed spec fn view(&self) -> LossModel {
        LossModel {
            rtt: self.rtt_estimator@,
            rto: self.rto,
            packet_threshold: self.packet_threshold,
            time_threshold: self.time_threshold,
        }
    }
}

impl LossDetector {
    /// Create a new loss detector: a fresh RTT estimator, an initial RTO of 500 ms, a packet
    /// threshold of 3 and a time threshold of 9 ms.
    pub fn new() -> (d: Self)
        ensures
            d@ == (LossModel {
                rtt: RttModel { srtt: None, rttvar: TimeSpan { nanos: 250_000_000 }, min_rtt: None },
                rto: TimeSpan { nanos: 500_000_000 },
                packet_threshold: 3,
                time_threshold: TimeSpan { nanos: 9_000_000 },
            }),
    {
        LossDetector {
            rtt_estimator: RttEstimator::new(),
            rto: TimeSpan::from_millis(500),
            loss_timer: None,
            packet_threshold: 3,
            time_threshold: TimeSpan::from_millis(9),
        }
    }

    /// Update the RTT estimate with a sample; the RTO follows the estimator.
    pub fn update_rtt(&mut self, rtt_sample: TimeSpan)
        requires
            rtt_update_fits(old(self)@.rtt, rtt_sample),
            rtt_sample.nanos <= MAX_SPAN_NANOS,
            rto_base(rtt_update(old(self)@.rtt, rtt_sample)) <= MAX_SPAN_NANOS,
        ensures
            final(self)@ == (LossModel {
                rtt: rtt_update(old(self)@.rtt, rtt_sample),
                rto: spec_rto(rtt_update(old(self)@.rtt, rtt_sample)),
                ..old(self)@
            }),
    {
        self.rtt_estimator.update(rtt_sample);
        self.rto = self.rtt_estimator.rto();
    }

    /// Detect lost packets: the tracked packets sent longer than the RTO ago (by the clock),
    /// each once, in no particular order (see `lost_given_ages`, which this calls with the
    /// packets' ages by the clock).
    pub fn detect_loss(&mut self, ack_tracker: &AckTracker) -> (lost: Vec<u64>)
        ensures
            final(self)@ == old(self)@,
            lost@.no_duplicates(),
            forall|k: u64| #[trigger] lost@.contains(k) ==> ack_tracker@.unacked.contains_key(k),
            exists|ages: Seq<(u64, TimeSpan)>|
                {
                    &&& age_keys(ages).no_duplicates()
                    &&& age_keys(ages).to_set() == ack_tracker@.unacked.dom()
                    &&& lost@ == lost_from(ages, old(self)@.rto)
                },
    {
        let ages = packet_ages(ack_tracker);
        let lost = self.lost_given_ages(&ages);
        proof {
            lemma_lost_from(ages@, self@.rto);
            assert forall|k: u64| #[trigger] lost@.contains(k) implies ack_tracker@.unacked.contains_key(
                k,
            ) by {
                assert(age_keys(ages@).to_set().contains(k));
            }
        }
        lost
    }

    /// The packet numbers that `ages` gives an age above the RTO, in the order of `ages`.
    pub fn lost_given_ages(&self, ages: &Vec<(u64, TimeSpan)>) -> (lost: Vec<u64>)
        ensures
            lost@ == lost_from(ages@, self@.rto),
    {
        let mut lost: Vec<u64> = Vec::new();
        for i in 0..ages.len()
            invariant
                lost@ == lost_from(ages@.take(i as int), self@.rto),
        {
            assert(ages@.take(i + 1).drop_last() =~= ages@.take(i as int));
            if ages[i].1.nanos > self.rto.nanos {
                lost.push(ages[i].0);
            }
        }
        assert(ages@.take(ages.len() as int) =~= ages@);
        lost
    }

    /// Get the current RTO.
    pub fn rto(&self) -> (t: TimeSpan)
        ensures
            t == self@.rto,
    {
        self.rto
    }
}

impl Default for LossDetector {
    fn default() -> (d: Self)
        ensures
            d@ == (LossModel {
                rtt: RttModel { srtt: None, rttvar: TimeSpan { nanos: 250_000_000 }, min_rtt: None },
                rto: TimeSpan { nanos: 500_000_000 },
                packet_threshold: 3,
                time_threshold: TimeSpan { nanos: 9_000_000 },
            }),
    {
        LossDetector::new()
    }
}

/// After an RTT sample, the smoothed RTT lies between the previous smoothed RTT and the sample.
pub proof fn lemma_srtt_between(m: RttModel, x: TimeSpan)
    requires
        m.srtt is Some,
    ensures
        ({
            let s = m.srtt.unwrap().nanos;
            let n = rtt_update(m, x).srtt.unwrap().nanos;
            &&& (s <= x.nanos ==> s <= n <= x.nanos)
            &&& (x.nanos <= s ==> x.nanos <= n <= s)
        }),
{
}

/// After a later RTT sample `x`, with previous smoothed RTT `s` and variation `v`, the new
/// variation is a quarter of `3 v + |x - s|`, rounded down: it is fed the sample's deviation
/// from the smoothed RTT, not the sample itself. So it lies between `v` and that deviation,
/// and a sample equal to the smoothed RTT never raises it.
pub proof fn lemma_rttvar_tracks_deviation(m: RttModel, x: TimeSpan)
    requires
        m.srtt is Some,
    ensures
        ({
            let s = m.srtt.unwrap().nanos as int;
            let v = m.rttvar.nanos as int;
            let d = if x.nanos >= s {
                x.nanos - s
            } else {
                s - x.nanos
            };
            let v2 = rtt_update(m, x).rttvar.nanos as int;
            &&& 4 * v2 <= 3 * v + d < 4 * v2 + 4
            &&& (v <= d ==> v <= v2 <= d)
            &&& (d <= v ==> d <= v2 <= v)
            &&& (x.nanos == s ==> v2 <= v)
        }),
{
}

/// A sample equal to the smoothed RTT leaves the smoothed RTT where it is and never raises
/// the retransmission timeout (for a timeout that the estimator can compute).
pub proof fn lemma_steady_sample_never_raises_rto(m: RttModel, x: TimeSpan)
    requires
        m.srtt == Some(x),
        rto_base(m) <= MAX_SPAN_NANOS,
    ensures
        rtt_update(m, x).srtt == Some(x),
        rtt_update(m, x).rttvar.nanos <= m.rttvar.nanos,
        spec_rto(rtt_update(m, x)).nanos <= spec_rto(m).nanos,
{
    assert(rto_base(rtt_update(m, x)) <= rto_base(m));
}

/// The first RTT sample becomes the smoothed RTT and the minimum RTT.
pub proof fn lemma_first_sample(m: RttModel, x: TimeSpan)
    requires
        m.srtt is None,
        m.min_rtt is None,
    ensures
        rtt_update(m, x).srtt == Some(x),
        rtt_update(m, x).min_rtt == Some(x),
{
}


proof fn lemma_insert_number_multiset(s: Seq<u64>, x: u64)
    ensures
        insert_number(s, x).to_multiset() == s.to_multiset().insert(x),
    decreases s.len(),
{
    broadcast use vstd::seq_lib::group_to_multiset_ensures;

    if s.len() == 0 {
        assert(seq![x] =~= Seq::<u64>::empty().push(x));
    } else if x < s.last() {
        lemma_insert_number_multiset(s.drop_last(), x);
        assert(s =~= s.drop_last().push(s.last()));
    }
}

proof fn lemma_sorted_numbers_multiset(s: Seq<u64>)
    ensures
        sorted_numbers(s).to_multiset() == s.to_multiset(),
    decreases s.len(),
{
    broadcast use vstd::seq_lib::group_to_multiset_ensures;

    if s.len() > 0 {
        lemma_sorted_numbers_multiset(s.drop_last());
        lemma_insert_number_multiset(sorted_numbers(s.drop_last()), s.last());
        assert(s =~= s.drop_last().push(s.last()));
    }
}

proof fn lemma_insert_range_multiset(s: Seq<AckRange>, r: AckRange)
    ensures
        insert_range(s, r).to_multiset() == s.to_multiset().insert(r),
    decreases s.len(),
{
    broadcast use vstd::seq_lib::group_to_multiset_ensures;

    if s.len() == 0 {
        assert(seq![r] =~= Seq::<AckRange>::empty().push(r));
    } else if r.first < s.last().first {
        lemma_insert_range_multiset(s.drop_last(), r);
        assert(s =~= s.drop_last().push(s.last()));
    }
}

proof fn lemma_sort_ranges_multiset(s: Seq<AckRange>)
    ensures
        sort_ranges(s).to_multiset() == s.to_multiset(),
    decreases s.len(),
{
    broadcast use vstd::seq_lib::group_to_multiset_ensures;

    if s.len() > 0 {
        lemma_sort_ranges_multiset(s.drop_last());
        lemma_insert_range_multiset(sort_ranges(s.drop_last()), s.last());
        assert(s =~= s.drop_last().push(s.last()));
    }
}

proof fn lemma_adds_multiset(rs: Seq<AckRange>, adds: Seq<AckRange>)
    ensures
        ranges_after_adds(rs, adds).to_multiset() == rs.to_multiset().add(adds.to_multiset()),
    decreases adds.len(),
{
    broadcast use vstd::seq_lib::group_to_multiset_ensures;
    broadcast use vstd::multiset::group_multiset_axioms;

    if adds.len() == 0 {
        assert(rs.to_multiset().add(adds.to_multiset()) =~= rs.to_multiset());
    } else {
        let d = adds.drop_last();
        lemma_adds_multiset(rs, d);
        let prev = ranges_after_adds(rs, d);
        lemma_sort_ranges_multiset(prev.push(adds.last()));
        assert(adds =~= d.push(adds.last()));
        assert(rs.to_multiset().add(adds.to_multiset()) =~= rs.to_multiset().add(
            d.to_multiset(),
        ).insert(adds.last()));
    }
}

/// Whether every number of every range of `rs` is in `s`.
pub open spec fn ranges_within(rs: Seq<AckRange>, s: Seq<u64>) -> bool {
    forall|i: int, pn: u64|
        #![trigger rs[i], s.contains(pn)]
        0 <= i < rs.len() && rs[i].first <= pn <= rs[i].last ==> s.contains(pn)
}

proof fn lemma_run_scan_within(s: Seq<u64>)
    requires
        s.len() >= 1,
    ensures
        ranges_within(run_scan(s).2, s),
        forall|pn: u64| run_scan(s).0 <= pn <= run_scan(s).1 ==> s.contains(pn),
    decreases s.len(),
{
    if s.len() == 1 {
        assert forall|pn: u64| run_scan(s).0 <= pn <= run_scan(s).1 implies s.contains(pn) by {
            assert(s[0] == pn);
        }
    } else {
        let d = s.drop_last();
        lemma_run_scan_within(d);
        let (st, en, acc) = run_scan(d);
        let x = s.last();
        lemma_push_contains(d, x);
        assert(s =~= d.push(x));
        if x == en + 1 {
            assert forall|pn: u64| st <= pn <= x implies s.contains(pn) by {
                if pn <= en {
                    assert(d.contains(pn));
                }
            }
        } else {
            assert forall|pn: u64| x <= pn <= x implies s.contains(pn) by {}
            if st != en {
                let acc2 = acc.push(AckRange { first: st, last: en });
                assert forall|i: int, pn: u64|
                    #![trigger acc2[i], s.contains(pn)]
                    0 <= i < acc2.len() && acc2[i].first <= pn <= acc2[i].last implies s.contains(
                    pn,
                ) by {
                    if i < acc.len() {
                        assert(acc[i] == acc2[i]);
                        assert(d.contains(pn));
                    } else {
                        assert(d.contains(pn));
                    }
                }
            } else {
                assert forall|i: int, pn: u64|
                    #![trigger acc[i], s.contains(pn)]
                    0 <= i < acc.len() && acc[i].first <= pn <= acc[i].last implies s.contains(
                    pn,
                ) by {
                    assert(d.contains(pn));
                }
            }
        }
    }
}

/// An ACK frame built from received packet numbers acknowledges only numbers that were
/// received, and it acknowledges the largest of them.
pub proof fn lemma_ack_frame_sound(r: Seq<u64>)
    requires
        r.len() > 0,
    ensures
        forall|pn: u64| spec_is_acked(ack_ranges_for(r), pn) ==> r.contains(pn),
        spec_is_acked(ack_ranges_for(r), seq_max(r)),
{
    broadcast use vstd::seq_lib::group_to_multiset_ensures;
    broadcast use vstd::multiset::group_multiset_axioms;

    let largest = seq_max(r);
    let init = seq![AckRange { first: largest, last: largest }];
    let sorted = sorted_numbers(r);
    lemma_sorted_numbers_len(r);
    lemma_sorted_numbers_multiset(r);
    lemma_seq_max_in(r);
    let adds = multi_runs(sorted);
    lemma_run_scan_within(sorted);
    let (st, en, acc) = run_scan(sorted);
    assert(ranges_within(adds, sorted)) by {
        if st != en {
            let a2 = acc.push(AckRange { first: st, last: en });
            assert forall|i: int, pn: u64|
                #![trigger a2[i], sorted.contains(pn)]
                0 <= i < a2.len() && a2[i].first <= pn <= a2[i].last implies sorted.contains(
                pn,
            ) by {
                if i < acc.len() {
                    assert(acc[i] == a2[i]);
                }
            }
        }
    }
    let res = ack_ranges_for(r);
    lemma_adds_multiset(init, adds);
    assert forall|pn: u64| spec_is_acked(res, pn) implies r.contains(pn) by {
        let i = choose|i: int| 0 <= i < res.len() && (#[trigger] res[i]).first <= pn <= res[i].last;
        assert(res.to_multiset().count(res[i]) > 0);
        if init.to_multiset().count(res[i]) > 0 {
            assert(init.contains(res[i]));
            assert(res[i] == init[0]);
        } else {
            assert(adds.to_multiset().count(res[i]) > 0);
            assert(adds.contains(res[i]));
            let k = choose|k: int| 0 <= k < adds.len() && adds[k] == res[i];
            assert(adds[k].first <= pn <= adds[k].last);
            assert(sorted.contains(pn));
            assert(sorted.to_multiset().count(pn) > 0);
        }
    }
    assert(init.contains(init[0]));
    assert(init.to_multiset().count(init[0]) > 0);
    assert(res.to_multiset().count(init[0]) > 0);
    assert(res.contains(init[0]));
    let j = choose|j: int| 0 <= j < res.len() && res[j] == init[0];
    assert(res[j].first <= largest <= res[j].last);
}

/// Every received packet number that lies in a run of two or more consecutive received
/// numbers (its successor or its predecessor was received too) is acknowledged by the ACK
/// frame built from the received numbers: no such run is left out.
pub proof fn lemma_ack_frame_complete(r: Seq<u64>)
    requires
        r.len() > 0,
    ensures
        forall|pn: u64|
            #![trigger r.contains(pn)]
            r.contains(pn) && ((pn < u64::MAX && r.contains((pn + 1) as u64)) || (pn > 0
                && r.contains((pn - 1) as u64))) ==> spec_is_acked(ack_ranges_for(r), pn),
{
    broadcast use vstd::seq_lib::group_to_multiset_ensures;

    let largest = seq_max(r);
    let init = seq![AckRange { first: largest, last: largest }];
    let sorted = sorted_numbers(r);
    lemma_sorted_numbers_len(r);
    lemma_sorted_numbers_multiset(r);
    lemma_sorted_numbers_nondecreasing(r);
    lemma_run_scan_covers_pairs(sorted);
    let (st, en, acc) = run_scan(sorted);
    let adds = multi_runs(sorted);
    assert forall|pn: u64|
        #![trigger r.contains(pn)]
        r.contains(pn) && ((pn < u64::MAX && r.contains((pn + 1) as u64)) || (pn > 0 && r.contains(
            (pn - 1) as u64,
        ))) implies spec_is_acked(ack_ranges_for(r), pn) by {
        let a: u64 = if pn < u64::MAX && r.contains((pn + 1) as u64) {
            pn
        } else {
            (pn - 1) as u64
        };
        assert(r.contains(a) && r.contains((a + 1) as u64));
        assert(sorted.to_multiset().count(a) > 0);
        assert(sorted.to_multiset().count((a + 1) as u64) > 0);
        assert(sorted.contains(a));
        assert(sorted.contains((a + 1) as u64));
        let i = choose|i: int| 0 <= i < sorted.len() && sorted[i] == a;
        let j = choose|j: int| 0 <= j < sorted.len() && sorted[j] == (a + 1) as u64;
        let k = lemma_adjacent_pair(sorted, a, i, j);
        assert(sorted[k] == sorted[k - 1] + 1);
        assert(pair_covered(run_scan(sorted), sorted, k));
        assert(spec_is_acked(adds, a) && spec_is_acked(adds, (a + 1) as u64)) by {
            if spec_is_acked(acc, a) && spec_is_acked(acc, (a + 1) as u64) {
                if st != en {
                    lemma_acked_after_push(acc, AckRange { first: st, last: en }, a);
                    lemma_acked_after_push(acc, AckRange { first: st, last: en }, (a + 1) as u64);
                }
            } else {
                let a2 = acc.push(AckRange { first: st, last: en });
                assert(a2[acc.len() as int] == AckRange { first: st, last: en });
            }
        }
        lemma_acked_kept_by_adds(init, adds, pn);
    }
}

spec fn nondecreasing(s: Seq<u64>) -> bool {
    forall|i: int, j: int| 0 <= i <= j < s.len() ==> s[i] <= s[j]
}

proof fn lemma_insert_number_nondecreasing(s: Seq<u64>, x: u64)
    requires
        nondecreasing(s),
    ensures
        nondecreasing(insert_number(s, x)),
    decreases s.len(),
{
    broadcast use vstd::seq_lib::group_to_multiset_ensures;
    broadcast use vstd::multiset::group_multiset_axioms;

    if s.len() > 0 && x < s.last() {
        let d = s.drop_last();
        let t = insert_number(d, x);
        lemma_insert_number_nondecreasing(d, x);
        lemma_insert_number_multiset(d, x);
        assert forall|i: int| 0 <= i < t.len() implies #[trigger] t[i] <= s.last() by {
            assert(t.contains(t[i]));
            assert(t.to_multiset().count(t[i]) > 0);
            if t[i] != x {
                assert(d.to_multiset().count(t[i]) > 0);
                assert(d.contains(t[i]));
                let k = choose|k: int| 0 <= k < d.len() && d[k] == t[i];
                assert(s[k] <= s[s.len() - 1]);
            }
        }
        assert(insert_number(s, x) == t.push(s.last()));
    }
}

proof fn lemma_sorted_numbers_nondecreasing(s: Seq<u64>)
    ensures
        nondecreasing(sorted_numbers(s)),
    decreases s.len(),
{
    if s.len() > 0 {
        lemma_sorted_numbers_nondecreasing(s.drop_last());
        lemma_insert_number_nondecreasing(sorted_numbers(s.drop_last()), s.last());
    }
}

/// Whether the neighbours `s[k - 1]` and `s[k]` lie both in finished runs of `scan` or both in
/// its current run.
spec fn pair_covered(scan: (u64, u64, Seq<AckRange>), s: Seq<u64>, k: int) -> bool {
    ||| spec_is_acked(scan.2, s[k - 1]) && spec_is_acked(scan.2, s[k])
    ||| scan.0 <= s[k - 1] && s[k] <= scan.1
}

/// In a scan of ascending numbers, each pair of neighbours that differ by one is either
/// inside a finished run or inside the current one.
proof fn lemma_run_scan_covers_pairs(s: Seq<u64>)
    requires
        s.len() >= 1,
        nondecreasing(s),
    ensures
        run_scan(s).1 == s.last(),
        run_scan(s).0 <= run_scan(s).1,
        forall|k: int|
            0 < k < s.len() && #[trigger] s[k] == s[k - 1] + 1 ==> pair_covered(
                run_scan(s),
                s,
                k,
            ),
    decreases s.len(),
{
    if s.len() > 1 {
        let d = s.drop_last();
        assert(nondecreasing(d)) by {
            assert forall|i: int, j: int| 0 <= i <= j < d.len() implies d[i] <= d[j] by {
                assert(d[i] == s[i] && d[j] == s[j]);
            }
        }
        lemma_run_scan_covers_pairs(d);
        let prev = run_scan(d);
        let st = prev.0;
        let en = prev.1;
        let acc = prev.2;
        let x = s.last();
        let cur = run_scan(s);
        assert(en == s[s.len() - 2]);
        assert(s[s.len() - 2] <= s[s.len() - 1]);
        if x == en + 1 {
            assert(cur == (st, x, acc));
            assert forall|k: int|
                0 < k < s.len() && #[trigger] s[k] == s[k - 1] + 1 implies pair_covered(
                cur,
                s,
                k,
            ) by {
                if k < s.len() - 1 {
                    assert(d[k] == s[k] && d[k - 1] == s[k - 1]);
                    assert(pair_covered(prev, d, k));
                }
            }
        } else {
            let run = AckRange { first: st, last: en };
            let acc2 = if st != en {
                acc.push(run)
            } else {
                acc
            };
            assert(cur == (x, x, acc2));
            assert forall|k: int|
                0 < k < s.len() && #[trigger] s[k] == s[k - 1] + 1 implies pair_covered(
                cur,
                s,
                k,
            ) by {
                assert(k < s.len() - 1);
                assert(d[k] == s[k] && d[k - 1] == s[k - 1]);
                assert(pair_covered(prev, d, k));
                if spec_is_acked(acc, s[k - 1]) && spec_is_acked(acc, s[k]) {
                    if st != en {
                        lemma_acked_after_push(acc, run, s[k - 1]);
                        lemma_acked_after_push(acc, run, s[k]);
                    }
                } else {
                    assert(acc2[acc.len() as int] == run);
                }
            }
        }
    }
}

proof fn lemma_acked_after_push(rs: Seq<AckRange>, extra: AckRange, pn: u64)
    requires
        spec_is_acked(rs, pn),
    ensures
        spec_is_acked(rs.push(extra), pn),
{
    let i = choose|i: int| 0 <= i < rs.len() && (#[trigger] rs[i]).first <= pn <= rs[i].last;
    assert(rs.push(extra)[i] == rs[i]);
}

/// In ascending numbers holding `a` (at `i`) and `a + 1` (at `j`), they stand side by side
/// somewhere.
proof fn lemma_adjacent_pair(s: Seq<u64>, a: u64, i: int, j: int) -> (k: int)
    requires
        nondecreasing(s),
        0 <= i < s.len(),
        0 <= j < s.len(),
        s[i] == a,
        s[j] == a + 1,
    ensures
        0 < k < s.len(),
        s[k - 1] == a,
        s[k] == a + 1,
    decreases j - i,
{
    if j <= i {
        assert(s[j] <= s[i]);
    }
    if j == i + 1 {
        j
    } else if s[i + 1] == a {
        lemma_adjacent_pair(s, a, i + 1, j)
    } else {
        assert(s[i + 1] <= s[j]);
        i + 1
    }
}

proof fn lemma_acked_kept_by_adds(init: Seq<AckRange>, adds: Seq<AckRange>, pn: u64)
    requires
        spec_is_acked(adds, pn),
    ensures
        spec_is_acked(ranges_after_adds(init, adds), pn),
{
    broadcast use vstd::seq_lib::group_to_multiset_ensures;
    broadcast use vstd::multiset::group_multiset_axioms;

    let res = ranges_after_adds(init, adds);
    lemma_adds_multiset(init, adds);
    let i = choose|i: int| 0 <= i < adds.len() && (#[trigger] adds[i]).first <= pn <= adds[i].last;
    assert(adds.contains(adds[i]));
    assert(adds.to_multiset().count(adds[i]) > 0);
    assert(res.to_multiset().count(adds[i]) > 0);
    assert(res.contains(adds[i]));
    let j = choose|j: int| 0 <= j < res.len() && res[j] == adds[i];
    assert(res[j].first <= pn <= res[j].last);
}

proof fn lemma_seq_max_in(s: Seq<u64>)
    requires
        s.len() > 0,
    ensures
        s.contains(seq_max(s)),
    decreases s.len(),
{
    if s.len() == 1 {
        assert(s[0] == seq_max(s));
    } else {
        lemma_seq_max_in(s.drop_last());
        let m = seq_max(s.drop_last());
        let k = choose|k: int| 0 <= k < s.drop_last().len() && s.drop_last()[k] == m;
        assert(s[k] == m);
        assert(s[s.len() - 1] == s.last());
    }
}

} // verus!
