//! Datagram carrier: packet framing, fragmentation of transport frames into
//! chunks, reassembly with repair requests, and the per-stream session state.

use vstd::prelude::*;
use crate::protocol::{StreamId, WireError};
use crate::keyed::{entry_keys, entry_values, has_key, U64Map};
use crate::num::sat_add_u64;
use crate::wire::{append_bytes, copy_range, lemma_u16_le_roundtrip, lemma_u64_le_roundtrip, push_u16_le, push_u64_le, read_u16_le, read_u64_le, u16_at, u16_le, u64_at, u64_le};

verus! {

pub const DATAGRAM_PROTOCOL_VERSION: u8 = 1;
pub const DEFAULT_DATAGRAM_TARGET_PAYLOAD_SIZE_BYTES: usize = 1200;
pub const DEFAULT_DATAGRAM_REPAIR_TIMEOUT_MS: u64 = 50;
pub const DEFAULT_DATAGRAM_MAX_IN_FLIGHT_MESSAGES: usize = 256;
pub const DEFAULT_DATAGRAM_MAX_CHUNKS_PER_MESSAGE: usize = 2048;
pub const DEFAULT_DATAGRAM_KEEPALIVE_INTERVAL_MS: u64 = 5_000;
pub const DEFAULT_DATAGRAM_MAX_REPAIR_ATTEMPTS: u32 = 8;
pub const DATAGRAM_HEADER_LEN: usize = 24;
pub const DATAGRAM_ACK_LEN: usize = 18;
pub const DATAGRAM_KEEPALIVE_LEN: usize = 10;
pub const DATAGRAM_CLOSE_LEN: usize = 12;
/// Length of a repair request carrying no range.
pub const DATAGRAM_REPAIR_BASE_LEN: usize = 19;

#[derive(Debug, Clone, Copy, PartialEq, Eq, Default, Structural)]
pub enum DatagramCarrierKind {
    Udp,
    QuicDatagram,
    #[default]
    WebTransportDatagram,
}

#[derive(Debug, Clone, Copy, PartialEq, Eq, Structural)]
pub struct DatagramReliabilityConfig {
    pub target_datagram_payload_size_bytes: usize,
    pub repair_timeout_ms: u64,
    pub max_in_flight_messages: usize,
    pub max_chunks_per_message: usize,
    pub keepalive_interval_ms: u64,
    pub max_repair_attempts: u32,
}

impl DatagramReliabilityConfig {
    pub open spec fn default_spec() -> DatagramReliabilityConfig {
        DatagramReliabilityConfig {
            target_datagram_payload_size_bytes: DEFAULT_DATAGRAM_TARGET_PAYLOAD_SIZE_BYTES,
            repair_timeout_ms: DEFAULT_DATAGRAM_REPAIR_TIMEOUT_MS,
            max_in_flight_messages: DEFAULT_DATAGRAM_MAX_IN_FLIGHT_MESSAGES,
            max_chunks_per_message: DEFAULT_DATAGRAM_MAX_CHUNKS_PER_MESSAGE,
            keepalive_interval_ms: DEFAULT_DATAGRAM_KEEPALIVE_INTERVAL_MS,
            max_repair_attempts: DEFAULT_DATAGRAM_MAX_REPAIR_ATTEMPTS,
        }
    }
}

impl Default for DatagramSendWindow {
    fn default() -> (w: Self)
        ensures
            w.wf(),
            w.pending_map() == Map::<u64, PendingDatagramMessage>::empty(),
            w.pending_len() == 0,
    {
        DatagramSendWindow::new()
    }
}

impl Default for DatagramReassemblyBuffer {
    fn default() -> (b: Self)
        ensures
            b.wf(),
            b.expected() == 0,
            b.partial_map() == Map::<u64, PartialMessage>::empty(),
            b.completed_map() == Map::<u64, Vec<u8>>::empty(),
            b.acknowledged_ids() == Seq::<u64>::empty(),
    {
        DatagramReassemblyBuffer::new()
    }
}

impl Default for DatagramReliabilityConfig {
    fn default() -> (c: Self)
        ensures
            c == DatagramReliabilityConfig::default_spec(),
    {
        DatagramReliabilityConfig {
            target_datagram_payload_size_bytes: DEFAULT_DATAGRAM_TARGET_PAYLOAD_SIZE_BYTES,
            repair_timeout_ms: DEFAULT_DATAGRAM_REPAIR_TIMEOUT_MS,
            max_in_flight_messages: DEFAULT_DATAGRAM_MAX_IN_FLIGHT_MESSAGES,
            max_chunks_per_message: DEFAULT_DATAGRAM_MAX_CHUNKS_PER_MESSAGE,
            keepalive_interval_ms: DEFAULT_DATAGRAM_KEEPALIVE_INTERVAL_MS,
            max_repair_attempts: DEFAULT_DATAGRAM_MAX_REPAIR_ATTEMPTS,
        }
    }
}

#[derive(Debug, Clone, Copy, PartialEq, Eq, Structural)]
pub struct DatagramSessionConfig {
    pub reliability: DatagramReliabilityConfig,
}

impl Default for DatagramSessionConfig {
    fn default() -> (c: Self)
        ensures
            c.reliability == DatagramReliabilityConfig::default_spec(),
    {
        DatagramSessionConfig { reliability: DatagramReliabilityConfig::default() }
    }
}

#[derive(Debug, Clone, Copy, PartialEq, Eq, Structural)]
pub enum DatagramPacketKind {
    Bootstrap,
    Data,
    Ack,
    RepairRequest,
    Keepalive,
    Close,
}

impl DatagramPacketKind {
    /// The kind byte on the wire.
    pub open spec fn code_spec(self) -> u8 {
        match self {
            DatagramPacketKind::Bootstrap => 1,
            DatagramPacketKind::Data => 2,
            DatagramPacketKind::Ack => 3,
            DatagramPacketKind::RepairRequest => 4,
            DatagramPacketKind::Keepalive => 5,
            DatagramPacketKind::Close => 6,
        }
    }

    pub fn code(self) -> (c: u8)
        ensures
            c == self.code_spec(),
    {
        match self {
            DatagramPacketKind::Bootstrap => 1,
            DatagramPacketKind::Data => 2,
            DatagramPacketKind::Ack => 3,
            DatagramPacketKind::RepairRequest => 4,
            DatagramPacketKind::Keepalive => 5,
            DatagramPacketKind::Close => 6,
        }
    }
}

#[derive(Debug, Clone, Copy, PartialEq, Eq, Structural)]
pub struct DatagramDataHeader {
    pub stream_id: StreamId,
    pub message_id: u64,
    pub chunk_index: u16,
    pub chunk_count: u16,
    pub payload_len: u16,
}

#[derive(Debug, Clone, Copy, PartialEq, Eq, Structural)]
pub struct DatagramAck {
    pub stream_id: StreamId,
    pub message_id: u64,
}

#[derive(Debug, Clone, Copy, PartialEq, Eq, Structural)]
pub struct DatagramChunkRange {
    pub start_chunk_index: u16,
    pub end_chunk_index_inclusive: u16,
}

#[derive(Debug, Clone, PartialEq, Eq)]
pub struct DatagramRepairRequest {
    pub stream_id: StreamId,
    pub message_id: u64,
    pub missing_ranges: Vec<DatagramChunkRange>,
}

#[derive(Debug, Clone, Copy, PartialEq, Eq, Structural)]
pub struct DatagramKeepalive {
    pub stream_id: StreamId,
}

#[derive(Debug, Clone, Copy, PartialEq, Eq, Structural)]
pub struct DatagramClose {
    pub stream_id: StreamId,
    pub code: u16,
}

#[derive(Debug, Clone, PartialEq, Eq)]
pub enum DatagramPacket {
    Bootstrap { stream_id: StreamId, frame: Vec<u8> },
    Data { header: DatagramDataHeader, payload: Vec<u8> },
    Ack(DatagramAck),
    RepairRequest(DatagramRepairRequest),
    Keepalive(DatagramKeepalive),
    Close(DatagramClose),
}

/// A packet with its byte vectors taken as sequences.
pub enum PacketModel {
    Bootstrap { stream_id: StreamId, frame: Seq<u8> },
    Data { header: DatagramDataHeader, payload: Seq<u8> },
    Ack(DatagramAck),
    RepairRequest { stream_id: StreamId, message_id: u64, missing_ranges: Seq<DatagramChunkRange> },
    Keepalive(DatagramKeepalive),
    Close(DatagramClose),
}

impl View for DatagramPacket {
    type V = PacketModel;

    open spec fn view(&self) -> PacketModel {
        match self {
            DatagramPacket::Bootstrap { stream_id, frame } => PacketModel::Bootstrap {
                stream_id: *stream_id,
                frame: frame@,
            },
            DatagramPacket::Data { header, payload } => PacketModel::Data {
                header: *header,
                payload: payload@,
            },
            DatagramPacket::Ack(a) => PacketModel::Ack(*a),
            DatagramPacket::RepairRequest(r) => PacketModel::RepairRequest {
                stream_id: r.stream_id,
                message_id: r.message_id,
                missing_ranges: r.missing_ranges@,
            },
            DatagramPacket::Keepalive(k) => PacketModel::Keepalive(*k),
            DatagramPacket::Close(c) => PacketModel::Close(*c),
        }
    }
}

#[derive(Debug, Clone, PartialEq, Eq, Structural)]
pub enum DatagramWireError {
    UnsupportedVersion(u8),
    UnknownPacketKind(u8),
    TruncatedPacket { minimum: usize, actual: usize },
    PayloadTooLarge(usize),
    PayloadLengthMismatch { header_len: usize, actual_len: usize },
    InvalidChunkIndex { chunk_index: u16, chunk_count: u16 },
    InvalidRepairRange { start_chunk_index: u16, end_chunk_index_inclusive: u16 },
    TooManyRepairRanges { actual: usize },
    TooManyChunksForMessage { chunk_count: usize, max_chunks: usize },
}

/// The fixed header shared by bootstrap and data packets.
pub open spec fn chunk_header_bytes(
    kind: u8,
    stream_id: u64,
    message_id: u64,
    chunk_index: u16,
    chunk_count: u16,
    payload_len: u16,
) -> Seq<u8> {
    seq![DATAGRAM_PROTOCOL_VERSION, kind] + u64_le(stream_id) + u64_le(message_id) + u16_le(
        chunk_index,
    ) + u16_le(chunk_count) + u16_le(payload_len)
}

/// The four bytes of each repair range, in order.
pub open spec fn ranges_bytes(ranges: Seq<DatagramChunkRange>) -> Seq<u8>
    decreases ranges.len(),
{
    if ranges.len() == 0 {
        Seq::empty()
    } else {
        ranges_bytes(ranges.drop_last()) + u16_le(ranges.last().start_chunk_index) + u16_le(
            ranges.last().end_chunk_index_inclusive,
        )
    }
}

/// Why a packet cannot be encoded, if it cannot.
pub open spec fn packet_encode_error(p: PacketModel) -> Option<DatagramWireError> {
    match p {
        PacketModel::Bootstrap { frame, .. } => if frame.len() > u16::MAX {
            Some(DatagramWireError::PayloadTooLarge(frame.len() as usize))
        } else {
            None
        },
        PacketModel::Data { header, payload } => if payload.len() != header.payload_len {
            Some(
                DatagramWireError::PayloadLengthMismatch {
                    header_len: header.payload_len as usize,
                    actual_len: payload.len() as usize,
                },
            )
        } else {
            None
        },
        PacketModel::RepairRequest { missing_ranges, .. } => if missing_ranges.len() > u8::MAX {
            Some(DatagramWireError::TooManyRepairRanges { actual: missing_ranges.len() as usize })
        } else {
            None
        },
        _ => None,
    }
}

/// The bytes of an encodable packet.
pub open spec fn packet_bytes(p: PacketModel) -> Seq<u8> {
    match p {
        PacketModel::Bootstrap { stream_id, frame } => chunk_header_bytes(
            1,
            stream_id.0,
            0,
            0,
            1,
            frame.len() as u16,
        ) + frame,
        PacketModel::Data { header, payload } => chunk_header_bytes(
            2,
            header.stream_id.0,
            header.message_id,
            header.chunk_index,
            header.chunk_count,
            header.payload_len,
        ) + payload,
        PacketModel::Ack(a) => seq![DATAGRAM_PROTOCOL_VERSION, 3u8] + u64_le(a.stream_id.0) + u64_le(
            a.message_id,
        ),
        PacketModel::RepairRequest { stream_id, message_id, missing_ranges } => seq![
            DATAGRAM_PROTOCOL_VERSION,
            4u8,
        ] + u64_le(stream_id.0) + u64_le(message_id) + seq![missing_ranges.len() as u8]
            + ranges_bytes(missing_ranges),
        PacketModel::Keepalive(k) => seq![DATAGRAM_PROTOCOL_VERSION, 5u8] + u64_le(k.stream_id.0),
        PacketModel::Close(c) => seq![DATAGRAM_PROTOCOL_VERSION, 6u8] + u64_le(c.stream_id.0)
            + u16_le(c.code),
    }
}

/// The first `n` repair ranges stored from offset 19 of `s`, or the first inverted one.
pub open spec fn parse_ranges(s: Seq<u8>, n: nat) -> Result<Seq<DatagramChunkRange>, DatagramWireError>
    decreases n,
{
    if n == 0 {
        Ok(Seq::empty())
    } else {
        match parse_ranges(s, (n - 1) as nat) {
            Err(e) => Err(e),
            Ok(rs) => {
                let start = u16_at(s, 19 + 4 * (n - 1));
                let end = u16_at(s, 19 + 4 * (n - 1) + 2);
                if end < start {
                    Err(
                        DatagramWireError::InvalidRepairRange {
                            start_chunk_index: start,
                            end_chunk_index_inclusive: end,
                        },
                    )
                } else {
                    Ok(rs.push(DatagramChunkRange { start_chunk_index: start, end_chunk_index_inclusive: end }))
                }
            },
        }
    }
}

pub open spec fn truncated(minimum: int, actual: int) -> DatagramWireError {
    DatagramWireError::TruncatedPacket { minimum: minimum as usize, actual: actual as usize }
}

/// What decoding the bytes `s` gives.
pub open spec fn parse_packet(s: Seq<u8>) -> Result<PacketModel, DatagramWireError> {
    if s.len() < 2 {
        Err(truncated(2, s.len() as int))
    } else if s[0] != DATAGRAM_PROTOCOL_VERSION {
        Err(DatagramWireError::UnsupportedVersion(s[0]))
    } else if s[1] == 1 {
        if s.len() < DATAGRAM_HEADER_LEN {
            Err(truncated(DATAGRAM_HEADER_LEN as int, s.len() as int))
        } else if s.len() != DATAGRAM_HEADER_LEN + u16_at(s, 22) {
            Err(
                DatagramWireError::PayloadLengthMismatch {
                    header_len: u16_at(s, 22) as usize,
                    actual_len: (s.len() - DATAGRAM_HEADER_LEN) as usize,
                },
            )
        } else {
            Ok(
                PacketModel::Bootstrap {
                    stream_id: StreamId(u64_at(s, 2)),
                    frame: s.subrange(DATAGRAM_HEADER_LEN as int, s.len() as int),
                },
            )
        }
    } else if s[1] == 2 {
        if s.len() < DATAGRAM_HEADER_LEN {
            Err(truncated(DATAGRAM_HEADER_LEN as int, s.len() as int))
        } else if u16_at(s, 20) == 0 || u16_at(s, 18) >= u16_at(s, 20) {
            Err(
                DatagramWireError::InvalidChunkIndex {
                    chunk_index: u16_at(s, 18),
                    chunk_count: u16_at(s, 20),
                },
            )
        } else if s.len() != DATAGRAM_HEADER_LEN + u16_at(s, 22) {
            Err(
                DatagramWireError::PayloadLengthMismatch {
                    header_len: u16_at(s, 22) as usize,
                    actual_len: (s.len() - DATAGRAM_HEADER_LEN) as usize,
                },
            )
        } else {
            Ok(
                PacketModel::Data {
                    header: DatagramDataHeader {
                        stream_id: StreamId(u64_at(s, 2)),
                        message_id: u64_at(s, 10),
                        chunk_index: u16_at(s, 18),
                        chunk_count: u16_at(s, 20),
                        payload_len: u16_at(s, 22),
                    },
                    payload: s.subrange(DATAGRAM_HEADER_LEN as int, s.len() as int),
                },
            )
        }
    } else if s[1] == 3 {
        if s.len() != DATAGRAM_ACK_LEN {
            Err(truncated(DATAGRAM_ACK_LEN as int, s.len() as int))
        } else {
            Ok(
                PacketModel::Ack(
                    DatagramAck { stream_id: StreamId(u64_at(s, 2)), message_id: u64_at(s, 10) },
                ),
            )
        }
    } else if s[1] == 4 {
        if s.len() < DATAGRAM_REPAIR_BASE_LEN {
            Err(truncated(DATAGRAM_REPAIR_BASE_LEN as int, s.len() as int))
        } else if s.len() != DATAGRAM_REPAIR_BASE_LEN + 4 * s[18] {
            Err(truncated(DATAGRAM_REPAIR_BASE_LEN + 4 * s[18], s.len() as int))
        } else {
            match parse_ranges(s, s[18] as nat) {
                Err(e) => Err(e),
                Ok(rs) => Ok(
                    PacketModel::RepairRequest {
                        stream_id: StreamId(u64_at(s, 2)),
                        message_id: u64_at(s, 10),
                        missing_ranges: rs,
                    },
                ),
            }
        }
    } else if s[1] == 5 {
        if s.len() != DATAGRAM_KEEPALIVE_LEN {
            Err(truncated(DATAGRAM_KEEPALIVE_LEN as int, s.len() as int))
        } else {
            Ok(PacketModel::Keepalive(DatagramKeepalive { stream_id: StreamId(u64_at(s, 2)) }))
        }
    } else if s[1] == 6 {
        if s.len() != DATAGRAM_CLOSE_LEN {
            Err(truncated(DATAGRAM_CLOSE_LEN as int, s.len() as int))
        } else {
            Ok(
                PacketModel::Close(
                    DatagramClose { stream_id: StreamId(u64_at(s, 2)), code: u16_at(s, 10) },
                ),
            )
        }
    } else {
        Err(DatagramWireError::UnknownPacketKind(s[1]))
    }
}

/// Whether decoding gives back exactly this packet: data chunks lie inside
/// their message and every repair range is ordered.
pub open spec fn packet_well_formed(p: PacketModel) -> bool {
    match p {
        PacketModel::Data { header, .. } => header.chunk_count > 0 && header.chunk_index
            < header.chunk_count,
        PacketModel::RepairRequest { missing_ranges, .. } => forall|i: int|
            0 <= i < missing_ranges.len() ==> (#[trigger] missing_ranges[i]).start_chunk_index
                <= missing_ranges[i].end_chunk_index_inclusive,
        _ => true,
    }
}

fn push_chunk_header(
    out: &mut Vec<u8>,
    kind: u8,
    stream_id: u64,
    message_id: u64,
    chunk_index: u16,
    chunk_count: u16,
    payload_len: u16,
)
    requires
        old(out)@.len() == 0,
    ensures
        final(out)@ == chunk_header_bytes(
            kind,
            stream_id,
            message_id,
            chunk_index,
            chunk_count,
            payload_len,
        ),
{
    out.push(DATAGRAM_PROTOCOL_VERSION);
    out.push(kind);
    assert(out@ =~= seq![DATAGRAM_PROTOCOL_VERSION, kind]);
    push_u64_le(out, stream_id);
    push_u64_le(out, message_id);
    push_u16_le(out, chunk_index);
    push_u16_le(out, chunk_count);
    push_u16_le(out, payload_len);
}

impl DatagramPacket {
    pub fn kind(&self) -> (k: DatagramPacketKind)
        ensures
            k == (match self {
                DatagramPacket::Bootstrap { .. } => DatagramPacketKind::Bootstrap,
                DatagramPacket::Data { .. } => DatagramPacketKind::Data,
                DatagramPacket::Ack(_) => DatagramPacketKind::Ack,
                DatagramPacket::RepairRequest(_) => DatagramPacketKind::RepairRequest,
                DatagramPacket::Keepalive(_) => DatagramPacketKind::Keepalive,
                DatagramPacket::Close(_) => DatagramPacketKind::Close,
            }),
    {
        match self {
            DatagramPacket::Bootstrap { .. } => DatagramPacketKind::Bootstrap,
            DatagramPacket::Data { .. } => DatagramPacketKind::Data,
            DatagramPacket::Ack(_) => DatagramPacketKind::Ack,
            DatagramPacket::RepairRequest(_) => DatagramPacketKind::RepairRequest,
            DatagramPacket::Keepalive(_) => DatagramPacketKind::Keepalive,
            DatagramPacket::Close(_) => DatagramPacketKind::Close,
        }
    }

    pub open spec fn stream_id_spec(&self) -> StreamId {
        match self {
            DatagramPacket::Bootstrap { stream_id, .. } => *stream_id,
            DatagramPacket::Data { header, .. } => header.stream_id,
            DatagramPacket::Ack(ack) => ack.stream_id,
            DatagramPacket::RepairRequest(repair) => repair.stream_id,
            DatagramPacket::Keepalive(keepalive) => keepalive.stream_id,
            DatagramPacket::Close(close) => close.stream_id,
        }
    }

    pub fn stream_id(&self) -> (s: StreamId)
        ensures
            s == self.stream_id_spec(),
    {
        match self {
            DatagramPacket::Bootstrap { stream_id, .. } => *stream_id,
            DatagramPacket::Data { header, .. } => header.stream_id,
            DatagramPacket::Ack(ack) => ack.stream_id,
            DatagramPacket::RepairRequest(repair) => repair.stream_id,
            DatagramPacket::Keepalive(keepalive) => keepalive.stream_id,
            DatagramPacket::Close(close) => close.stream_id,
        }
    }

    /// Encodes the packet; fails only when a length does not fit its field.
    pub fn to_bytes(&self) -> (r: Result<Vec<u8>, DatagramWireError>)
        ensures
            match packet_encode_error(self@) {
                Some(e) => r == Err::<Vec<u8>, DatagramWireError>(e),
                None => r is Ok && r->Ok_0@ == packet_bytes(self@),
            },
    {
        match self {
            DatagramPacket::Bootstrap { stream_id, frame } => {
                if frame.len() > 0xffff {
                    return Err(DatagramWireError::PayloadTooLarge(frame.len()));
                }
                let frame_len: u16 = frame.len() as u16;
                let mut out: Vec<u8> = Vec::new();
                push_chunk_header(&mut out, 1, stream_id.0, 0, 0, 1, frame_len);
                append_bytes(&mut out, frame.as_slice());
                Ok(out)
            },
            DatagramPacket::Data { header, payload } => {
                if payload.len() != header.payload_len as usize {
                    return Err(
                        DatagramWireError::PayloadLengthMismatch {
                            header_len: header.payload_len as usize,
                            actual_len: payload.len(),
                        },
                    );
                }
                let mut out: Vec<u8> = Vec::new();
                push_chunk_header(
                    &mut out,
                    2,
                    header.stream_id.0,
                    header.message_id,
                    header.chunk_index,
                    header.chunk_count,
                    header.payload_len,
                );
                append_bytes(&mut out, payload.as_slice());
                Ok(out)
            },
            DatagramPacket::Ack(ack) => {
                let mut out: Vec<u8> = Vec::new();
                out.push(DATAGRAM_PROTOCOL_VERSION);
                out.push(3);
                assert(out@ =~= seq![DATAGRAM_PROTOCOL_VERSION, 3u8]);
                push_u64_le(&mut out, ack.stream_id.0);
                push_u64_le(&mut out, ack.message_id);
                Ok(out)
            },
            DatagramPacket::RepairRequest(repair) => {
                let n = repair.missing_ranges.len();
                if n > 0xff {
                    return Err(DatagramWireError::TooManyRepairRanges { actual: n });
                }
                let mut out: Vec<u8> = Vec::new();
                out.push(DATAGRAM_PROTOCOL_VERSION);
                out.push(4);
                assert(out@ =~= seq![DATAGRAM_PROTOCOL_VERSION, 4u8]);
                push_u64_le(&mut out, repair.stream_id.0);
                push_u64_le(&mut out, repair.message_id);
                out.push(n as u8);
                let ghost head = out@;
                assert(head =~= seq![DATAGRAM_PROTOCOL_VERSION, 4u8] + u64_le(repair.stream_id.0)
                    + u64_le(repair.message_id) + seq![n as u8]);
                let mut i: usize = 0;
                while i < n
                    invariant
                        i <= n,
                        n == repair.missing_ranges@.len(),
                        out@ == head + ranges_bytes(
                            repair.missing_ranges@.subrange(0, i as int),
                        ),
                    decreases n - i,
                {
                    let range = repair.missing_ranges[i];
                    push_u16_le(&mut out, range.start_chunk_index);
                    push_u16_le(&mut out, range.end_chunk_index_inclusive);
                    proof {
                        let sub = repair.missing_ranges@.subrange(0, i + 1);
                        assert(sub.drop_last() =~= repair.missing_ranges@.subrange(0, i as int));
                    }
                    i = i + 1;
                }
                assert(repair.missing_ranges@.subrange(0, n as int) =~= repair.missing_ranges@);
                Ok(out)
            },
            DatagramPacket::Keepalive(keepalive) => {
                let mut out: Vec<u8> = Vec::new();
                out.push(DATAGRAM_PROTOCOL_VERSION);
                out.push(5);
                assert(out@ =~= seq![DATAGRAM_PROTOCOL_VERSION, 5u8]);
                push_u64_le(&mut out, keepalive.stream_id.0);
                Ok(out)
            },
            DatagramPacket::Close(close) => {
                let mut out: Vec<u8> = Vec::new();
                out.push(DATAGRAM_PROTOCOL_VERSION);
                out.push(6);
                assert(out@ =~= seq![DATAGRAM_PROTOCOL_VERSION, 6u8]);
                push_u64_le(&mut out, close.stream_id.0);
                push_u16_le(&mut out, close.code);
                Ok(out)
            },
        }
    }

    /// Decodes a packet.
    pub fn from_bytes(bytes: &[u8]) -> (r: Result<DatagramPacket, DatagramWireError>)
        ensures
            match r {
                Ok(p) => parse_packet(bytes@) == Ok::<PacketModel, DatagramWireError>(p@),
                Err(e) => parse_packet(bytes@) == Err::<PacketModel, DatagramWireError>(e),
            },
    {
        let len = bytes.len();
        if len < 2 {
            return Err(DatagramWireError::TruncatedPacket { minimum: 2, actual: len });
        }
        if bytes[0] != DATAGRAM_PROTOCOL_VERSION {
            return Err(DatagramWireError::UnsupportedVersion(bytes[0]));
        }
        let kind = bytes[1];
        if kind == 1 || kind == 2 {
            if len < DATAGRAM_HEADER_LEN {
                return Err(
                    DatagramWireError::TruncatedPacket { minimum: DATAGRAM_HEADER_LEN, actual: len },
                );
            }
            let stream_id = StreamId(read_u64_le(bytes, 2));
            let message_id = read_u64_le(bytes, 10);
            let chunk_index = read_u16_le(bytes, 18);
            let chunk_count = read_u16_le(bytes, 20);
            let payload_len = read_u16_le(bytes, 22);
            if kind == 2 && (chunk_count == 0 || chunk_index >= chunk_count) {
                return Err(DatagramWireError::InvalidChunkIndex { chunk_index, chunk_count });
            }
            if len - DATAGRAM_HEADER_LEN != payload_len as usize {
                return Err(
                    DatagramWireError::PayloadLengthMismatch {
                        header_len: payload_len as usize,
                        actual_len: len - DATAGRAM_HEADER_LEN,
                    },
                );
            }
            let payload = copy_range(bytes, DATAGRAM_HEADER_LEN, len);
            if kind == 1 {
                return Ok(DatagramPacket::Bootstrap { stream_id, frame: payload });
            }
            return Ok(
                DatagramPacket::Data {
                    header: DatagramDataHeader {
                        stream_id,
                        message_id,
                        chunk_index,
                        chunk_count,
                        payload_len,
                    },
                    payload,
                },
            );
        }
        if kind == 3 {
            if len != DATAGRAM_ACK_LEN {
                return Err(
                    DatagramWireError::TruncatedPacket { minimum: DATAGRAM_ACK_LEN, actual: len },
                );
            }
            return Ok(
                DatagramPacket::Ack(
                    DatagramAck {
                        stream_id: StreamId(read_u64_le(bytes, 2)),
                        message_id: read_u64_le(bytes, 10),
                    },
                ),
            );
        }
        if kind == 4 {
            return Self::repair_from_bytes(bytes);
        }
        if kind == 5 {
            if len != DATAGRAM_KEEPALIVE_LEN {
                return Err(
                    DatagramWireError::TruncatedPacket {
                        minimum: DATAGRAM_KEEPALIVE_LEN,
                        actual: len,
                    },
                );
            }
            return Ok(
                DatagramPacket::Keepalive(
                    DatagramKeepalive { stream_id: StreamId(read_u64_le(bytes, 2)) },
                ),
            );
        }
        if kind == 6 {
            if len != DATAGRAM_CLOSE_LEN {
                return Err(
                    DatagramWireError::TruncatedPacket { minimum: DATAGRAM_CLOSE_LEN, actual: len },
                );
            }
            return Ok(
                DatagramPacket::Close(
                    DatagramClose {
                        stream_id: StreamId(read_u64_le(bytes, 2)),
                        code: read_u16_le(bytes, 10),
                    },
                ),
            );
        }
        Err(DatagramWireError::UnknownPacketKind(kind))
    }

    fn repair_from_bytes(bytes: &[u8]) -> (r: Result<DatagramPacket, DatagramWireError>)
        requires
            bytes@.len() >= 2,
            bytes@[0] == DATAGRAM_PROTOCOL_VERSION,
            bytes@[1] == 4,
        ensures
            match r {
                Ok(p) => parse_packet(bytes@) == Ok::<PacketModel, DatagramWireError>(p@),
                Err(e) => parse_packet(bytes@) == Err::<PacketModel, DatagramWireError>(e),
            },
    {
        let len = bytes.len();
        if len < DATAGRAM_REPAIR_BASE_LEN {
            return Err(
                DatagramWireError::TruncatedPacket { minimum: DATAGRAM_REPAIR_BASE_LEN, actual: len },
            );
        }
        let stream_id = StreamId(read_u64_le(bytes, 2));
        let message_id = read_u64_le(bytes, 10);
        let range_count: usize = bytes[18] as usize;
        let expected_len: usize = DATAGRAM_REPAIR_BASE_LEN + range_count * 4;
        if len != expected_len {
            return Err(DatagramWireError::TruncatedPacket { minimum: expected_len, actual: len });
        }
        let mut missing_ranges: Vec<DatagramChunkRange> = Vec::new();
        let mut i: usize = 0;
        while i < range_count
            invariant
                i <= range_count,
                range_count == bytes@[18],
                bytes@[0] == DATAGRAM_PROTOCOL_VERSION,
                bytes@[1] == 4,
                bytes@.len() == DATAGRAM_REPAIR_BASE_LEN + 4 * range_count,
                parse_ranges(bytes@, i as nat) == Ok::<Seq<DatagramChunkRange>, DatagramWireError>(
                    missing_ranges@,
                ),
            decreases range_count - i,
        {
            let cursor: usize = DATAGRAM_REPAIR_BASE_LEN + 4 * i;
            let start_chunk_index = read_u16_le(bytes, cursor);
            let end_chunk_index_inclusive = read_u16_le(bytes, cursor + 2);
            if end_chunk_index_inclusive < start_chunk_index {
                proof {
                    assert(parse_ranges(bytes@, (i + 1) as nat) == Err::<
                        Seq<DatagramChunkRange>,
                        DatagramWireError,
                    >(
                        DatagramWireError::InvalidRepairRange {
                            start_chunk_index,
                            end_chunk_index_inclusive,
                        },
                    ));
                    lemma_parse_ranges_err_sticks(bytes@, (i + 1) as nat, range_count as nat);
                    assert(bytes@[18] as nat == range_count as nat);
                    assert(parse_ranges(bytes@, bytes@[18] as nat) == parse_ranges(
                        bytes@,
                        (i + 1) as nat,
                    ));
                    assert(parse_packet(bytes@) == Err::<PacketModel, DatagramWireError>(
                        DatagramWireError::InvalidRepairRange {
                            start_chunk_index,
                            end_chunk_index_inclusive,
                        },
                    ));
                }
                return Err(
                    DatagramWireError::InvalidRepairRange {
                        start_chunk_index,
                        end_chunk_index_inclusive,
                    },
                );
            }
            missing_ranges.push(DatagramChunkRange { start_chunk_index, end_chunk_index_inclusive });
            i = i + 1;
        }
        Ok(DatagramPacket::RepairRequest(DatagramRepairRequest { stream_id, message_id, missing_ranges }))
    }
}

/// A message that was sent and may still need repair.
#[derive(Debug, Clone)]
pub struct PendingDatagramMessage {
    pub stream_id: StreamId,
    pub message_id: u64,
    pub chunks: Vec<Vec<u8>>,
    pub repair_attempts: u32,
}

/// The sent messages that await acknowledgement, by message id.
pub struct DatagramSendWindow {
    pending: U64Map<PendingDatagramMessage>,
}

impl DatagramSendWindow {
    pub closed spec fn wf(&self) -> bool {
        self.pending.wf()
    }

    /// The pending messages by message id.
    pub closed spec fn pending_map(&self) -> Map<u64, PendingDatagramMessage> {
        self.pending.map()
    }

    pub closed spec fn pending_len(&self) -> nat {
        self.pending@.len()
    }

    pub fn new() -> (w: Self)
        ensures
            w.wf(),
            w.pending_map() == Map::<u64, PendingDatagramMessage>::empty(),
            w.pending_len() == 0,
    {
        DatagramSendWindow { pending: U64Map::new() }
    }

    /// Records a sent message, then retires the oldest messages (smallest ids)
    /// until at most `max_messages` remain.
    pub fn insert(&mut self, message: PendingDatagramMessage, max_messages: usize)
        requires
            old(self).wf(),
        ensures
            final(self).wf(),
            ({
                let merged = old(self).pending_map().insert(message.message_id, message);
                let merged_len = old(self).pending_len() + (if old(self).pending_map().contains_key(
                    message.message_id,
                ) {
                    0int
                } else {
                    1int
                });
                &&& final(self).pending_len() == if merged_len > max_messages {
                    max_messages as int
                } else {
                    merged_len
                }
                &&& forall|k: u64| #[trigger]
                    final(self).pending_map().contains_key(k) ==> merged.contains_key(k)
                        && final(self).pending_map()[k] == merged[k]
                &&& forall|k1: u64, k2: u64|
                    merged.contains_key(k1) && !final(self).pending_map().contains_key(k1)
                        && final(self).pending_map().contains_key(k2) ==> k1 < k2
            }),
    {
        let ghost had = self.pending.map().contains_key(message.message_id);
        proof {
            if had {
                assert(has_key(self.pending@, message.message_id));
            }
        }
        let id = message.message_id;
        self.pending.insert(id, message);
        let ghost merged = self.pending.map();
        let ghost merged_len = self.pending@.len();
        while self.pending.len() > max_messages
            invariant
                self.pending.wf(),
                forall|k: u64| #[trigger]
                    self.pending.map().contains_key(k) ==> merged.contains_key(k)
                        && self.pending.map()[k] == merged[k],
                forall|k1: u64, k2: u64|
                    merged.contains_key(k1) && !self.pending.map().contains_key(k1)
                        && self.pending.map().contains_key(k2) ==> k1 < k2,
                merged_len > max_messages ==> self.pending@.len() >= max_messages,
                merged_len <= max_messages ==> self.pending@.len() == merged_len,
            decreases self.pending@.len(),
        {
            let ghost before = self.pending.map();
            let ghost first = self.pending@[0].0;
            let _ = self.pending.remove_first();
            proof {
                assert forall|k1: u64, k2: u64|
                    merged.contains_key(k1) && !self.pending.map().contains_key(k1)
                        && self.pending.map().contains_key(k2) implies k1 < k2 by {
                    if before.contains_key(k1) {
                        assert(k1 == first);
                    }
                }
            }
        }
    }

    /// Retires a message; true when it was pending.
    pub fn acknowledge(&mut self, message_id: u64) -> (b: bool)
        requires
            old(self).wf(),
        ensures
            final(self).wf(),
            b == old(self).pending_map().contains_key(message_id),
            final(self).pending_map() == old(self).pending_map().remove(message_id),
            final(self).pending_len() == old(self).pending_len() - (if b {
                1int
            } else {
                0int
            }),
    {
        let r = self.pending.remove(message_id);
        r.is_some()
    }

    pub fn pending(&self, message_id: u64) -> (r: Option<&PendingDatagramMessage>)
        requires
            self.wf(),
        ensures
            match r {
                Some(m) => self.pending_map().contains_key(message_id) && *m
                    == self.pending_map()[message_id],
                None => !self.pending_map().contains_key(message_id),
            },
    {
        self.pending.get(message_id)
    }

    /// Takes a pending message out of the window.
    fn take(&mut self, message_id: u64) -> (r: Option<PendingDatagramMessage>)
        requires
            old(self).wf(),
        ensures
            final(self).wf(),
            final(self).pending_map() == old(self).pending_map().remove(message_id),
            match r {
                Some(m) => old(self).pending_map().contains_key(message_id) && m == old(self).pending_map()[message_id],
                None => !old(self).pending_map().contains_key(message_id),
            },
    {
        self.pending.remove(message_id)
    }

    fn put_back(&mut self, message: PendingDatagramMessage)
        requires
            old(self).wf(),
        ensures
            final(self).wf(),
            final(self).pending_map() == old(self).pending_map().insert(message.message_id, message),
    {
        let id = message.message_id;
        self.pending.insert(id, message);
    }
}

/// Whether chunk `index` of a message has arrived.
pub open spec fn chunk_present(received: Map<u64, Vec<u8>>, index: int) -> bool {
    received.contains_key(index as u64)
}

/// `ranges` lists, in order, exactly the maximal runs of chunk indices below
/// `count` that have not arrived.
pub open spec fn missing_runs(received: Map<u64, Vec<u8>>, count: int, ranges: Seq<DatagramChunkRange>) -> bool {
    &&& forall|r: int|
        0 <= r < ranges.len() ==> {
            let g = #[trigger] ranges[r];
            &&& g.start_chunk_index <= g.end_chunk_index_inclusive < count
            &&& forall|j: int|
                g.start_chunk_index <= j <= g.end_chunk_index_inclusive ==> !chunk_present(
                    received,
                    j,
                )
            &&& g.start_chunk_index == 0 || chunk_present(received, g.start_chunk_index - 1)
            &&& g.end_chunk_index_inclusive + 1 == count || chunk_present(
                received,
                g.end_chunk_index_inclusive + 1,
            )
        }
    &&& forall|a: int, b: int|
        0 <= a < b < ranges.len() ==> (#[trigger] ranges[a]).end_chunk_index_inclusive + 1 < (
        #[trigger] ranges[b]).start_chunk_index
    &&& forall|j: int|
        0 <= j < count && !chunk_present(received, j) ==> exists|r: int|
            0 <= r < ranges.len() && (#[trigger] ranges[r]).start_chunk_index <= j
                <= ranges[r].end_chunk_index_inclusive
}

/// The chunks of one message received so far.
pub struct PartialMessage {
    chunk_count: u16,
    received: U64Map<Vec<u8>>,
}

impl PartialMessage {
    pub closed spec fn wf(&self) -> bool {
        self.received.wf()
    }

    /// How many chunks the message has.
    pub closed spec fn count(&self) -> u16 {
        self.chunk_count
    }

    /// The received chunks by index.
    pub closed spec fn chunks(&self) -> Map<u64, Vec<u8>> {
        self.received.map()
    }

    pub closed spec fn received_len(&self) -> nat {
        self.received@.len()
    }

    /// The received chunk payloads joined in index order.
    pub closed spec fn joined(&self) -> Seq<u8> {
        entry_values(self.received@).map_values(|v: Vec<u8>| v@).flatten()
    }

    pub fn new(chunk_count: u16) -> (m: Self)
        ensures
            m.wf(),
            m.count() == chunk_count,
            m.chunks() == Map::<u64, Vec<u8>>::empty(),
            m.received_len() == 0,
    {
        PartialMessage { chunk_count, received: U64Map::new() }
    }

    /// Stores a chunk unless one with that index arrived before; true once
    /// as many chunks as the message has are present.
    pub fn insert(&mut self, chunk_index: u16, payload: Vec<u8>) -> (complete: bool)
        requires
            old(self).wf(),
        ensures
            final(self).wf(),
            final(self).count() == old(self).count(),
            final(self).chunks() == if old(self).chunks().contains_key(chunk_index as u64) {
                old(self).chunks()
            } else {
                old(self).chunks().insert(chunk_index as u64, payload)
            },
            final(self).received_len() == old(self).received_len() + (if old(self).chunks().contains_key(chunk_index as u64) {
                0int
            } else {
                1int
            }),
            complete == (final(self).received_len() == old(self).count()),
    {
        if !self.received.contains_key(chunk_index as u64) {
            self.received.insert(chunk_index as u64, payload);
        }
        self.received.len() == self.chunk_count as usize
    }

    /// The runs of chunk indices that have not arrived, in increasing order.
    pub fn missing_ranges(&self) -> (out: Vec<DatagramChunkRange>)
        requires
            self.wf(),
        ensures
            missing_runs(self.chunks(), self.count() as int, out@),
    {
        let count = self.chunk_count;
        let ghost rec = self.chunks();
        let mut missing: Vec<DatagramChunkRange> = Vec::new();
        let mut open: Option<u16> = None;
        let mut index: u16 = 0;
        while index < count
            invariant
                self.wf(),
                rec == self.chunks(),
                count == self.chunk_count,
                index <= count,
                forall|r: int|
                    0 <= r < missing@.len() ==> {
                        let g = #[trigger] missing@[r];
                        &&& g.start_chunk_index <= g.end_chunk_index_inclusive
                        &&& g.end_chunk_index_inclusive + 1 < index
                        &&& forall|j: int|
                            g.start_chunk_index <= j <= g.end_chunk_index_inclusive
                                ==> !chunk_present(rec, j)
                        &&& g.start_chunk_index == 0 || chunk_present(
                            rec,
                            g.start_chunk_index - 1,
                        )
                        &&& chunk_present(rec, g.end_chunk_index_inclusive + 1)
                    },
                forall|a: int, b: int|
                    0 <= a < b < missing@.len() ==> (#[trigger] missing@[a]).end_chunk_index_inclusive
                        + 1 < (#[trigger] missing@[b]).start_chunk_index,
                match open {
                    Some(st) => {
                        &&& st < index
                        &&& forall|j: int| st <= j < index ==> !chunk_present(rec, j)
                        &&& st == 0 || chunk_present(rec, st - 1)
                        &&& forall|r: int|
                            0 <= r < missing@.len() ==> (#[trigger] missing@[r]).end_chunk_index_inclusive
                                + 1 < st
                        &&& forall|j: int|
                            0 <= j < st && !chunk_present(rec, j) ==> exists|r: int|
                                0 <= r < missing@.len() && (#[trigger] missing@[r]).start_chunk_index
                                    <= j <= missing@[r].end_chunk_index_inclusive
                    },
                    None => {
                        &&& index == 0 || chunk_present(rec, index - 1)
                        &&& forall|j: int|
                            0 <= j < index && !chunk_present(rec, j) ==> exists|r: int|
                                0 <= r < missing@.len() && (#[trigger] missing@[r]).start_chunk_index
                                    <= j <= missing@[r].end_chunk_index_inclusive
                    },
                },
            decreases count - index,
        {
            let present = self.received.contains_key(index as u64);
            match open {
                None => {
                    if !present {
                        open = Some(index);
                    }
                },
                Some(st) => {
                    if present {
                        let ghost before = missing@;
                        missing.push(
                            DatagramChunkRange {
                                start_chunk_index: st,
                                end_chunk_index_inclusive: index - 1,
                            },
                        );
                        open = None;
                        proof {
                            assert forall|j: int|
                                0 <= j < index + 1 && !chunk_present(rec, j) implies exists|r: int|
                                    0 <= r < missing@.len() && (#[trigger] missing@[r]).start_chunk_index
                                        <= j <= missing@[r].end_chunk_index_inclusive by {
                                if j < st {
                                    let r = choose|r: int|
                                        0 <= r < before.len() && (#[trigger] before[r]).start_chunk_index
                                            <= j <= before[r].end_chunk_index_inclusive;
                                    assert(missing@[r] == before[r]);
                                } else {
                                    assert(missing@[before.len() as int].start_chunk_index <= j);
                                }
                            }
                        }
                    }
                },
            }
            index = index + 1;
        }
        match open {
            Some(st) => {
                let ghost before = missing@;
                missing.push(
                    DatagramChunkRange {
                        start_chunk_index: st,
                        end_chunk_index_inclusive: count - 1,
                    },
                );
                proof {
                    assert forall|j: int|
                        0 <= j < count && !chunk_present(rec, j) implies exists|r: int|
                            0 <= r < missing@.len() && (#[trigger] missing@[r]).start_chunk_index
                                <= j <= missing@[r].end_chunk_index_inclusive by {
                        if j < st {
                            let r = choose|r: int|
                                0 <= r < before.len() && (#[trigger] before[r]).start_chunk_index
                                    <= j <= before[r].end_chunk_index_inclusive;
                            assert(missing@[r] == before[r]);
                        } else {
                            assert(missing@[before.len() as int].start_chunk_index <= j);
                        }
                    }
                }
            },
            None => {},
        }
        missing
    }

    /// The chunks joined in index order.
    pub fn into_payload(self) -> (payload: Vec<u8>)
        ensures
            payload@ == self.joined(),
    {
        let ghost joined = self.joined();
        let chunks = self.received.into_values();
        let mut payload: Vec<u8> = Vec::new();
        let mut i: usize = 0;
        while i < chunks.len()
            invariant
                i <= chunks@.len(),
                joined == chunks@.map_values(|v: Vec<u8>| v@).flatten(),
                payload@ == chunks@.subrange(0, i as int).map_values(|v: Vec<u8>| v@).flatten(),
            decreases chunks@.len() - i,
        {
            append_bytes(&mut payload, chunks[i].as_slice());
            proof {
                let pre = chunks@.subrange(0, i as int).map_values(|v: Vec<u8>| v@);
                let post = chunks@.subrange(0, i + 1).map_values(|v: Vec<u8>| v@);
                assert(post =~= pre.push(chunks@[i as int]@));
                pre.lemma_flatten_push(chunks@[i as int]@);
            }
            i = i + 1;
        }
        assert(chunks@.subrange(0, i as int) =~= chunks@);
        payload
    }
}

/// Chunks of messages in flight, completed messages awaiting in-order
/// delivery, and the ids of completed messages still to acknowledge.
pub struct DatagramReassemblyBuffer {
    expected_message_id: u64,
    partial: U64Map<PartialMessage>,
    completed: U64Map<Vec<u8>>,
    acknowledged: U64Map<()>,
}

impl DatagramReassemblyBuffer {
    pub closed spec fn wf(&self) -> bool {
        &&& self.partial.wf()
        &&& self.completed.wf()
        &&& self.acknowledged.wf()
        &&& forall|k: u64| #[trigger]
            self.partial.map().contains_key(k) ==> self.partial.map()[k].wf()
    }

    pub closed spec fn expected(&self) -> u64 {
        self.expected_message_id
    }

    /// Messages with chunks still missing, by message id.
    pub closed spec fn partial_map(&self) -> Map<u64, PartialMessage> {
        self.partial.map()
    }

    /// Completed messages not yet delivered, by message id.
    pub closed spec fn completed_map(&self) -> Map<u64, Vec<u8>> {
        self.completed.map()
    }

    /// Completed messages to acknowledge, in increasing order.
    pub closed spec fn acknowledged_ids(&self) -> Seq<u64> {
        entry_keys(self.acknowledged@)
    }

    /// The ids of messages with chunks still missing, in increasing order.
    pub closed spec fn partial_ids(&self) -> Seq<u64> {
        entry_keys(self.partial@)
    }

    pub fn new() -> (b: Self)
        ensures
            b.wf(),
            b.expected() == 0,
            b.partial_map() == Map::<u64, PartialMessage>::empty(),
            b.completed_map() == Map::<u64, Vec<u8>>::empty(),
            b.acknowledged_ids() == Seq::<u64>::empty(),
    {
        let b = DatagramReassemblyBuffer {
            expected_message_id: 0,
            partial: U64Map::new(),
            completed: U64Map::new(),
            acknowledged: U64Map::new(),
        };
        assert(entry_keys(b.acknowledged@) =~= Seq::<u64>::empty());
        b
    }

    pub fn expected_message_id(&self) -> (id: u64)
        ensures
            id == self.expected(),
    {
        self.expected_message_id
    }

    /// Adds a chunk. A message whose chunk count differs from the one first
    /// seen is refused; once all chunks are present the message moves to the
    /// completed set and is marked for acknowledgement. Gives whether this
    /// chunk completed its message.
    pub fn insert_data(&mut self, header: DatagramDataHeader, payload: Vec<u8>) -> (r: Result<
        bool,
        DatagramWireError,
    >)
        requires
            old(self).wf(),
        ensures
            final(self).wf(),
            final(self).expected() == old(self).expected(),
            ({
                let id = header.message_id;
                let known = old(self).partial_map().contains_key(id);
                let prev = old(self).partial_map()[id];
                let prev_chunks = if known {
                    prev.chunks()
                } else {
                    Map::<u64, Vec<u8>>::empty()
                };
                let prev_len = if known {
                    prev.received_len() as int
                } else {
                    0int
                };
                let dup = prev_chunks.contains_key(header.chunk_index as u64);
                let chunks = if dup {
                    prev_chunks
                } else {
                    prev_chunks.insert(header.chunk_index as u64, payload)
                };
                let len = prev_len + if dup {
                    0int
                } else {
                    1int
                };
                if known && prev.count() != header.chunk_count {
                    &&& r == Err::<bool, DatagramWireError>(
                        DatagramWireError::InvalidChunkIndex {
                            chunk_index: header.chunk_index,
                            chunk_count: header.chunk_count,
                        },
                    )
                    &&& final(self).partial_map() == old(self).partial_map()
                    &&& final(self).completed_map() == old(self).completed_map()
                    &&& final(self).acknowledged_ids() == old(self).acknowledged_ids()
                } else {
                    &&& r == Ok::<bool, DatagramWireError>(len == header.chunk_count)
                    &&& final(self).partial_map().remove(id) == old(self).partial_map().remove(id)
                    &&& if len == header.chunk_count {
                        &&& !final(self).partial_map().contains_key(id)
                        &&& final(self).completed_map().remove(id) == old(self).completed_map().remove(id)
                        &&& final(self).completed_map().contains_key(id)
                        &&& exists|m: PartialMessage|
                            m.wf() && m.chunks() == chunks && final(self).completed_map()[id]@ == m.joined()
                        &&& final(self).acknowledged_ids().to_set() == old(self).acknowledged_ids().to_set().insert(id)
                        &&& old(self).acknowledged_ids().len() == 0 ==> final(self).acknowledged_ids() == seq![id]
                    } else {
                        &&& final(self).partial_map().contains_key(id)
                        &&& final(self).partial_map()[id].chunks() == chunks
                        &&& final(self).partial_map()[id].count() == header.chunk_count
                        &&& final(self).partial_map()[id].received_len() == len
                        &&& final(self).completed_map() == old(self).completed_map()
                        &&& final(self).acknowledged_ids() == old(self).acknowledged_ids()
                    }
                }
            }),
    {
        let id = header.message_id;
        let ghost old_partial = self.partial.map();
        let mut entry = match self.partial.remove(id) {
            Some(e) => e,
            None => PartialMessage::new(header.chunk_count),
        };
        if entry.chunk_count != header.chunk_count {
            self.partial.insert(id, entry);
            assert(self.partial.map() =~= old_partial);
            return Err(
                DatagramWireError::InvalidChunkIndex {
                    chunk_index: header.chunk_index,
                    chunk_count: header.chunk_count,
                },
            );
        }
        let complete = entry.insert(header.chunk_index, payload);
        if complete {
            let ghost m = entry;
            let joined = entry.into_payload();
            self.completed.insert(id, joined);
            let ghost before_ack = self.acknowledged@;
            self.acknowledged.insert(id, ());
            proof {
                assert(self.partial.map() =~= old_partial.remove(id));
                assert(self.completed.map().remove(id) =~= old(self).completed.map().remove(id));
                lemma_keys_set_after_insert(before_ack, self.acknowledged@, id);
                if entry_keys(before_ack).len() == 0 {
                    assert(entry_keys(before_ack).to_set() =~= Set::<u64>::empty());
                    assert(self.acknowledged.wf());
                    lemma_single_key(self.acknowledged@, id);
                }
            }
        } else {
            self.partial.insert(id, entry);
            proof {
                assert(self.partial.map().remove(id) =~= old_partial.remove(id));
                lemma_keys_unchanged(old(self).acknowledged@, self.acknowledged@);
            }
        }
        Ok(complete)
    }

    /// The missing runs of a message that is still incomplete.
    pub fn missing_ranges_for(&self, message_id: u64) -> (r: Option<Vec<DatagramChunkRange>>)
        requires
            self.wf(),
        ensures
            match r {
                Some(v) => self.partial_map().contains_key(message_id) && missing_runs(
                    self.partial_map()[message_id].chunks(),
                    self.partial_map()[message_id].count() as int,
                    v@,
                ),
                None => !self.partial_map().contains_key(message_id),
            },
    {
        match self.partial.get(message_id) {
            Some(m) => Some(m.missing_ranges()),
            None => None,
        }
    }

    /// Hands out the next message in order, if it is complete.
    pub fn pop_next_ready(&mut self) -> (r: Option<(u64, Vec<u8>)>)
        requires
            old(self).wf(),
        ensures
            final(self).wf(),
            final(self).partial_map() == old(self).partial_map(),
            final(self).acknowledged_ids() == old(self).acknowledged_ids(),
            match r {
                Some((id, payload)) => id == old(self).expected() && old(self).completed_map().contains_key(id) && payload == old(self).completed_map()[id]
                    && final(self).completed_map() == old(self).completed_map().remove(id)
                    && final(self).expected() == sat_add_u64(old(self).expected(), 1),
                None => !old(self).completed_map().contains_key(old(self).expected())
                    && final(self).completed_map() == old(self).completed_map() && final(self).expected() == old(self).expected(),
            },
    {
        let id = self.expected_message_id;
        match self.completed.remove(id) {
            Some(payload) => {
                self.expected_message_id = self.expected_message_id.saturating_add(1);
                Some((id, payload))
            },
            None => None,
        }
    }

    /// The ids of completed messages to acknowledge, in increasing order.
    pub fn take_acknowledged(&self) -> (ids: Vec<u64>)
        ensures
            ids@ == self.acknowledged_ids(),
    {
        self.acknowledged.keys()
    }

    pub fn clear_acknowledged(&mut self)
        requires
            old(self).wf(),
        ensures
            final(self).wf(),
            final(self).acknowledged_ids() == Seq::<u64>::empty(),
            final(self).partial_map() == old(self).partial_map(),
            final(self).completed_map() == old(self).completed_map(),
            final(self).expected() == old(self).expected(),
    {
        self.acknowledged = U64Map::new();
        assert(entry_keys(self.acknowledged@) =~= Seq::<u64>::empty());
    }

    /// The ids of messages with chunks still missing, in increasing order.
    pub fn incomplete_message_ids(&self) -> (ids: Vec<u64>)
        requires
            self.wf(),
        ensures
            ids@ == self.partial_ids(),
            forall|k: u64| ids@.contains(k) <==> self.partial_map().contains_key(k),
    {
        let ids = self.partial.keys();
        proof {
            lemma_keys_contains(self.partial@);
        }
        ids
    }
}

/// A key is among the listed keys exactly when some entry carries it.
pub proof fn lemma_keys_contains<V>(s: Seq<(u64, V)>)
    ensures
        forall|k: u64| entry_keys(s).contains(k) <==> has_key(s, k),
{
    assert forall|k: u64| entry_keys(s).contains(k) <==> has_key(s, k) by {
        if entry_keys(s).contains(k) {
            let i = choose|i: int| 0 <= i < entry_keys(s).len() && entry_keys(s)[i] == k;
            assert(s[i].0 == k);
        }
        if has_key(s, k) {
            let i = choose|i: int| 0 <= i < s.len() && (#[trigger] s[i]).0 == k;
            assert(entry_keys(s)[i] == k);
        }
    }
}

/// Sorted entries whose keys form the set of one key hold that key alone.
proof fn lemma_single_key(s: Seq<(u64, ())>, id: u64)
    requires
        crate::keyed::keys_sorted(s),
        entry_keys(s).to_set() == Set::<u64>::empty().insert(id),
    ensures
        entry_keys(s) == seq![id],
{
    let ks = entry_keys(s);
    assert(ks.to_set().contains(id));
    assert(ks.contains(id));
    assert(ks.len() >= 1);
    assert forall|i: int| 0 <= i < ks.len() implies ks[i] == id by {
        assert(ks.to_set().contains(ks[i]));
    }
    if ks.len() >= 2 {
        assert(s[0].0 < s[1].0);
        assert(ks[0] == s[0].0 && ks[1] == s[1].0);
        assert(false);
    }
    assert(ks =~= seq![id]);
}

proof fn lemma_keys_set_after_insert(before: Seq<(u64, ())>, after: Seq<(u64, ())>, id: u64)
    requires
        crate::keyed::entries_map(after) == crate::keyed::entries_map(before).insert(id, ()),
    ensures
        entry_keys(after).to_set() == entry_keys(before).to_set().insert(id),
{
    lemma_keys_contains(before);
    lemma_keys_contains(after);
    assert forall|k: u64| entry_keys(after).to_set().contains(k) <==> entry_keys(before).to_set().insert(
        id,
    ).contains(k) by {
        assert(crate::keyed::entries_map(after).contains_key(k) == has_key(after, k));
        assert(crate::keyed::entries_map(before).contains_key(k) == has_key(before, k));
    }
    assert(entry_keys(after).to_set() =~= entry_keys(before).to_set().insert(id));
}

proof fn lemma_keys_unchanged(before: Seq<(u64, ())>, after: Seq<(u64, ())>)
    requires
        before == after,
    ensures
        entry_keys(after) == entry_keys(before),
{
}

/// How many chunks a frame of `len` bytes is cut into, `size` bytes each.
pub open spec fn chunk_total(len: nat, size: nat) -> nat {
    if len % size == 0 {
        len / size
    } else {
        len / size + 1
    }
}

/// Chunk `i` of `frame` cut into chunks of `size` bytes, as a data packet.
pub open spec fn fragment_packet(
    stream_id: StreamId,
    message_id: u64,
    frame: Seq<u8>,
    size: nat,
    count: u16,
    i: int,
) -> PacketModel {
    let start = i * size;
    let end = if start + size <= frame.len() {
        start + size
    } else {
        frame.len() as int
    };
    PacketModel::Data {
        header: DatagramDataHeader {
            stream_id,
            message_id,
            chunk_index: i as u16,
            chunk_count: count,
            payload_len: (end - start) as u16,
        },
        payload: frame.subrange(start, end),
    }
}

/// The packets cutting `frame` into chunks of `size` bytes.
pub open spec fn fragment_ok(
    stream_id: StreamId,
    message_id: u64,
    frame: Seq<u8>,
    size: nat,
    count: u16,
    packets: Seq<DatagramPacket>,
) -> bool {
    &&& packets.len() == chunk_total(frame.len(), size)
    &&& forall|i: int|
        0 <= i < packets.len() ==> (#[trigger] packets[i])@ == fragment_packet(
            stream_id,
            message_id,
            frame,
            size,
            count,
            i,
        )
}

/// Cuts a transport frame into data packets of at most
/// `target_datagram_payload_size_bytes` bytes (at least one byte each).
pub fn fragment_transport_frame(
    stream_id: StreamId,
    message_id: u64,
    frame: &[u8],
    config: DatagramReliabilityConfig,
) -> (r: Result<Vec<DatagramPacket>, DatagramWireError>)
    ensures
        ({
            let size: nat = if config.target_datagram_payload_size_bytes == 0 {
                1
            } else {
                config.target_datagram_payload_size_bytes as nat
            };
            let total = chunk_total(frame@.len(), size);
            let count: nat = if total == 0 {
                1
            } else {
                total
            };
            let first_len: nat = if frame@.len() < size {
                frame@.len()
            } else {
                size
            };
            if total > config.max_chunks_per_message {
                r == Err::<Vec<DatagramPacket>, DatagramWireError>(
                    DatagramWireError::TooManyChunksForMessage {
                        chunk_count: total as usize,
                        max_chunks: config.max_chunks_per_message,
                    },
                )
            } else if count > u16::MAX {
                r == Err::<Vec<DatagramPacket>, DatagramWireError>(
                    DatagramWireError::TooManyChunksForMessage {
                        chunk_count: count as usize,
                        max_chunks: config.max_chunks_per_message,
                    },
                )
            } else if first_len > u16::MAX {
                r == Err::<Vec<DatagramPacket>, DatagramWireError>(
                    DatagramWireError::PayloadTooLarge(first_len as usize),
                )
            } else {
                r is Ok && fragment_ok(stream_id, message_id, frame@, size, count as u16, r->Ok_0@)
            }
        }),
{
    let size: usize = if config.target_datagram_payload_size_bytes == 0 {
        1
    } else {
        config.target_datagram_payload_size_bytes
    };
    let len = frame.len();
    let mut total: usize = len / size;
    if len % size != 0 {
        assert(len / size + 1 <= len) by (nonlinear_arith)
            requires
                len % size != 0,
                size > 0,
        ;
        total = total + 1;
    }
    proof {
        lemma_ceil_props(len as nat, size as nat);
    }
    if total > config.max_chunks_per_message {
        return Err(
            DatagramWireError::TooManyChunksForMessage {
                chunk_count: total,
                max_chunks: config.max_chunks_per_message,
            },
        );
    }
    let count: usize = if total == 0 {
        1
    } else {
        total
    };
    if count > 0xffff {
        return Err(
            DatagramWireError::TooManyChunksForMessage {
                chunk_count: count,
                max_chunks: config.max_chunks_per_message,
            },
        );
    }
    let first_len: usize = if len < size {
        len
    } else {
        size
    };
    if len > 0 && first_len > 0xffff {
        return Err(DatagramWireError::PayloadTooLarge(first_len));
    }
    let mut packets: Vec<DatagramPacket> = Vec::new();
    let mut i: usize = 0;
    let mut start: usize = 0;
    while start < len
        invariant
            size > 0,
            len == frame@.len(),
            count <= 0xffff,
            total == chunk_total(len as nat, size as nat),
            count == (if total == 0 {
                1
            } else {
                total
            }),
            len == 0 || first_len <= 0xffff,
            first_len == (if len < size {
                len
            } else {
                size
            }),
            start < len ==> start == i * size,
            start <= len,
            i <= total,
            start < len ==> i < total,
            start == len ==> i == total,
            len > 0 ==> total > 0,
            total > 0 ==> (total - 1) * size < len <= total * size,
            packets@.len() == i,
            forall|j: int|
                0 <= j < i ==> (#[trigger] packets@[j])@ == fragment_packet(
                    stream_id,
                    message_id,
                    frame@,
                    size as nat,
                    count as u16,
                    j,
                ),
        decreases len - start,
    {
        let end: usize = if len - start >= size {
            start + size
        } else {
            len
        };
        assert(end - start <= first_len);
        let payload = copy_range(frame, start, end);
        let header = DatagramDataHeader {
            stream_id,
            message_id,
            chunk_index: i as u16,
            chunk_count: count as u16,
            payload_len: (end - start) as u16,
        };
        packets.push(DatagramPacket::Data { header, payload });
        proof {
            lemma_chunk_step(len as nat, size as nat, i as nat, total as nat);
        }
        i = i + 1;
        start = end;
    }
    Ok(packets)
}

proof fn lemma_ceil_props(len: nat, size: nat)
    requires
        size > 0,
    ensures
        len == 0 ==> chunk_total(len, size) == 0,
        len > 0 ==> chunk_total(len, size) > 0,
        chunk_total(len, size) > 0 ==> (chunk_total(len, size) - 1) * size < len <= chunk_total(
            len,
            size,
        ) * size,
{
    let q = len / size;
    let r = len % size;
    assert(len == q * size + r && 0 <= r < size) by (nonlinear_arith)
        requires
            size > 0,
            q == len / size,
            r == len % size,
    ;
    if r == 0 {
        if q > 0 {
            assert((q - 1) * size == q * size - size) by (nonlinear_arith);
        }
        if len > 0 {
            assert(q > 0) by (nonlinear_arith)
                requires
                    len == q * size,
                    len > 0,
            ;
        }
    } else {
        assert((q + 1) * size == q * size + size) by (nonlinear_arith);
    }
}

proof fn lemma_chunk_step(len: nat, size: nat, i: nat, total: nat)
    requires
        size > 0,
        total == chunk_total(len, size),
        i * size < len,
        total > 0 ==> (total - 1) * size < len <= total * size,
        len > 0 ==> total > 0,
    ensures
        i < total,
        (i + 1) * size == i * size + size,
        i * size + size < len ==> i + 1 < total,
        i * size + size >= len ==> i + 1 == total,
{
    assert((i + 1) * size == i * size + size) by (nonlinear_arith);
    if i >= total {
        assert(i * size >= total * size) by (nonlinear_arith)
            requires
                i >= total,
        ;
    }
    if i + 1 >= total && i * size + size < len {
        assert((i + 1) * size >= total * size) by (nonlinear_arith)
            requires
                i + 1 >= total,
        ;
    }
    if i * size + size >= len {
        if i + 1 < total {
            assert((i + 1) * size <= (total - 1) * size) by (nonlinear_arith)
                requires
                    i + 1 <= total - 1,
            ;
        }
    }
}

/// The chunk indices a repair range names, in order.
pub open spec fn range_indices(r: DatagramChunkRange) -> Seq<int> {
    if r.start_chunk_index <= r.end_chunk_index_inclusive {
        Seq::new(
            (r.end_chunk_index_inclusive - r.start_chunk_index + 1) as nat,
            |j: int| r.start_chunk_index + j,
        )
    } else {
        Seq::empty()
    }
}

/// The chunk indices the ranges name, in order, kept where the message has such a chunk.
pub open spec fn repair_indices(ranges: Seq<DatagramChunkRange>, chunk_total: nat) -> Seq<int>
    decreases ranges.len(),
{
    if ranges.len() == 0 {
        Seq::empty()
    } else {
        repair_indices(ranges.drop_last(), chunk_total) + range_indices(ranges.last()).filter(
            |j: int| j < chunk_total,
        )
    }
}

/// The data packet that resends chunk `j` of a pending message.
pub open spec fn repair_packet(pending: PendingDatagramMessage, j: int) -> PacketModel {
    PacketModel::Data {
        header: DatagramDataHeader {
            stream_id: pending.stream_id,
            message_id: pending.message_id,
            chunk_index: j as u16,
            chunk_count: pending.chunks@.len() as u16,
            payload_len: pending.chunks@[j]@.len() as u16,
        },
        payload: pending.chunks@[j]@,
    }
}

/// Data packets resending the chunks that the ranges name, in order; indices
/// past the message's last chunk are skipped.
pub fn repair_packets_for_message(
    pending: &PendingDatagramMessage,
    ranges: &[DatagramChunkRange],
) -> (out: Vec<DatagramPacket>)
    ensures
        out@.len() == repair_indices(ranges@, pending.chunks@.len()).len(),
        forall|k: int|
            0 <= k < out@.len() ==> (#[trigger] out@[k])@ == repair_packet(
                *pending,
                repair_indices(ranges@, pending.chunks@.len())[k],
            ),
{
    let n = pending.chunks.len();
    let chunk_count: u16 = #[verifier::truncate] (n as u16);
    let mut out: Vec<DatagramPacket> = Vec::new();
    let mut r: usize = 0;
    while r < ranges.len()
        invariant
            r <= ranges@.len(),
            n == pending.chunks@.len(),
            chunk_count == n as u16,
            out@.len() == repair_indices(ranges@.subrange(0, r as int), n as nat).len(),
            forall|k: int|
                0 <= k < out@.len() ==> (#[trigger] out@[k])@ == repair_packet(
                    *pending,
                    repair_indices(ranges@.subrange(0, r as int), n as nat)[k],
                ),
        decreases ranges@.len() - r,
    {
        let range = ranges[r];
        let ghost base = out@;
        let ghost prefix = repair_indices(ranges@.subrange(0, r as int), n as nat);
        let ghost full = range_indices(range);
        let mut idx: u32 = range.start_chunk_index as u32;
        let stop: u32 = range.end_chunk_index_inclusive as u32;
        while idx <= stop
            invariant
                n == pending.chunks@.len(),
                chunk_count == n as u16,
                range.start_chunk_index <= idx,
                idx <= stop + 1 || idx == range.start_chunk_index,
                stop == range.end_chunk_index_inclusive,
                full == range_indices(range),
                out@.len() >= base.len(),
                out@.subrange(0, base.len() as int) == base,
                out@.len() - base.len() == full.subrange(0, idx - range.start_chunk_index).filter(
                    |j: int| j < n,
                ).len(),
                forall|k: int|
                    base.len() <= k < out@.len() ==> (#[trigger] out@[k])@ == repair_packet(
                        *pending,
                        full.subrange(0, idx - range.start_chunk_index).filter(|j: int| j < n)[k
                            - base.len()],
                    ),
            decreases stop + 1 - idx,
        {
            let ghost old_out = out@;
            let ghost sub = full.subrange(0, idx - range.start_chunk_index);
            let ghost sub2 = full.subrange(0, idx + 1 - range.start_chunk_index);
            proof {
                assert(sub2 =~= sub.push(idx as int));
                sub.lemma_filter_push(idx as int, |j: int| j < n);
            }
            if (idx as usize) < n {
                let chunk = &pending.chunks[idx as usize];
                let payload = copy_range(chunk.as_slice(), 0, chunk.len());
                assert(payload@ =~= chunk@);
                out.push(
                    DatagramPacket::Data {
                        header: DatagramDataHeader {
                            stream_id: pending.stream_id,
                            message_id: pending.message_id,
                            chunk_index: idx as u16,
                            chunk_count,
                            payload_len: #[verifier::truncate] (chunk.len() as u16),
                        },
                        payload,
                    },
                );
                proof {
                    assert(out@.subrange(0, base.len() as int) =~= base);
                    assert forall|k: int| base.len() <= k < out@.len() implies (#[trigger] out@[k])@
                        == repair_packet(*pending, sub2.filter(|j: int| j < n)[k - base.len()]) by {
                        if k < old_out.len() {
                            assert(out@[k] == old_out[k]);
                        }
                    }
                }
            } else {
            }
            idx = idx + 1;
        }
        proof {
            let len = if range.start_chunk_index <= range.end_chunk_index_inclusive {
                range.end_chunk_index_inclusive - range.start_chunk_index + 1
            } else {
                0
            };
            assert(full.subrange(0, idx - range.start_chunk_index) =~= full);
            let pre = ranges@.subrange(0, r as int);
            let next = ranges@.subrange(0, r + 1);
            assert(next.drop_last() =~= pre);
            assert(next.last() == range);
            let total = repair_indices(next, n as nat);
            assert(total == prefix + full.filter(|j: int| j < n));
            assert(out@ =~= base + out@.subrange(base.len() as int, out@.len() as int));
            assert forall|k: int| 0 <= k < out@.len() implies (#[trigger] out@[k])@ == repair_packet(
                *pending,
                total[k],
            ) by {
                if k < base.len() {
                    assert(out@[k] == base[k]);
                }
            }
        }
        r = r + 1;
    }
    assert(ranges@.subrange(0, r as int) =~= ranges@);
    out
}

/// Encodes each packet in turn, stopping at the first that cannot be encoded.
pub fn encode_datagram_frames(packets: Vec<DatagramPacket>) -> (r: Result<
    Vec<Vec<u8>>,
    DatagramWireError,
>)
    ensures
        match r {
            Ok(frames) => frames@.len() == packets@.len() && forall|i: int|
                0 <= i < packets@.len() ==> packet_encode_error((#[trigger] packets@[i])@) is None
                    && frames@[i]@ == packet_bytes(packets@[i]@),
            Err(e) => exists|i: int|
                0 <= i < packets@.len() && packet_encode_error((#[trigger] packets@[i])@) == Some(
                    e,
                ) && forall|j: int| 0 <= j < i ==> packet_encode_error((#[trigger] packets@[j])@) is None,
        },
{
    let mut frames: Vec<Vec<u8>> = Vec::new();
    let mut i: usize = 0;
    while i < packets.len()
        invariant
            i <= packets@.len(),
            frames@.len() == i,
            forall|j: int|
                0 <= j < i ==> packet_encode_error((#[trigger] packets@[j])@) is None
                    && frames@[j]@ == packet_bytes(packets@[j]@),
        decreases packets@.len() - i,
    {
        match packets[i].to_bytes() {
            Ok(bytes) => frames.push(bytes),
            Err(e) => {
                return Err(e);
            },
        }
        i = i + 1;
    }
    Ok(frames)
}

/// Decodes one datagram.
pub fn decode_datagram_frame(frame: &[u8]) -> (r: Result<DatagramPacket, DatagramWireError>)
    ensures
        match r {
            Ok(p) => parse_packet(frame@) == Ok::<PacketModel, DatagramWireError>(p@),
            Err(e) => parse_packet(frame@) == Err::<PacketModel, DatagramWireError>(e),
        },
{
    DatagramPacket::from_bytes(frame)
}

/// `frames` are the encoded data packets that cut `frame` into the chunks
/// the configuration asks for.
pub open spec fn frame_encoding_ok(
    stream_id: StreamId,
    message_id: u64,
    frame: Seq<u8>,
    config: DatagramReliabilityConfig,
    frames: Seq<Vec<u8>>,
) -> bool {
    let size: nat = if config.target_datagram_payload_size_bytes == 0 {
        1
    } else {
        config.target_datagram_payload_size_bytes as nat
    };
    let total = chunk_total(frame.len(), size);
    let count: nat = if total == 0 {
        1
    } else {
        total
    };
    &&& frames.len() == total
    &&& forall|i: int|
        0 <= i < frames.len() ==> (#[trigger] frames[i])@ == packet_bytes(
            fragment_packet(stream_id, message_id, frame, size, count as u16, i),
        )
}

/// No close code was recorded.
pub open spec fn outbound_close_free(code: Option<u16>) -> bool {
    code is None
}

/// Whether two strings hold the same characters (std's `str` equality).
#[verifier::external_body]
pub(crate) fn str_equal(a: &str, b: &str) -> (r: bool)
    ensures
        r == (a@ == b@),
{
    a == b
}

impl DatagramCarrierKind {
    /// The carrier a configuration name stands for; each carrier has one or
    /// more accepted spellings.
    pub open spec fn from_name(value: Seq<char>) -> Option<DatagramCarrierKind> {
        if value == "udp"@ {
            Some(DatagramCarrierKind::Udp)
        } else if value == "quic_datagram"@ || value == "quic_dgram"@ {
            Some(DatagramCarrierKind::QuicDatagram)
        } else if value == "webtransport_datagram"@ || value == "webtransport_dgram"@ || value
            == "webtransport"@ {
            Some(DatagramCarrierKind::WebTransportDatagram)
        } else {
            None
        }
    }

    pub fn parse(value: &str) -> (r: Option<DatagramCarrierKind>)
        ensures
            r == DatagramCarrierKind::from_name(value@),
    {
        if str_equal(value, "udp") {
            Some(DatagramCarrierKind::Udp)
        } else if str_equal(value, "quic_datagram") || str_equal(value, "quic_dgram") {
            Some(DatagramCarrierKind::QuicDatagram)
        } else if str_equal(value, "webtransport_datagram") || str_equal(value, "webtransport_dgram")
            || str_equal(value, "webtransport") {
            Some(DatagramCarrierKind::WebTransportDatagram)
        } else {
            None
        }
    }

    pub fn slug(self) -> (s: &'static str)
        ensures
            s@ == (match self {
                DatagramCarrierKind::Udp => "udp"@,
                DatagramCarrierKind::QuicDatagram => "quic_datagram"@,
                DatagramCarrierKind::WebTransportDatagram => "webtransport_datagram"@,
            }),
    {
        match self {
            DatagramCarrierKind::Udp => "udp",
            DatagramCarrierKind::QuicDatagram => "quic_datagram",
            DatagramCarrierKind::WebTransportDatagram => "webtransport_datagram",
        }
    }
}

#[derive(Debug, Clone, PartialEq, Eq)]
pub enum DatagramSessionError {
    Wire(DatagramWireError),
    RecordWire(WireError),
    UnexpectedStreamId { expected: StreamId, actual: StreamId },
    RepairBudgetExceeded { message_id: u64 },
    SessionClosed,
}

#[derive(Debug, Clone, Copy, PartialEq, Eq, Default, Structural)]
pub struct DatagramSessionMetrics {
    pub outbound_messages: u64,
    pub outbound_datagrams: u64,
    pub retransmitted_datagrams: u64,
    pub acknowledged_messages: u64,
    pub repair_requests_sent: u64,
    pub repair_requests_received: u64,
    pub duplicate_chunks_ignored: u64,
}

#[derive(Debug, Clone)]
pub struct DatagramIngressOutcome {
    pub outbound_datagrams: Vec<Vec<u8>>,
    pub ready_frames: Vec<Vec<u8>>,
    pub close_code: Option<u16>,
}

/// A data chunk names a chunk count other than the one its message was
/// started with.
pub open spec fn chunk_count_conflict(partial: Map<u64, PartialMessage>, h: DatagramDataHeader) -> bool {
    partial.contains_key(h.message_id) && partial[h.message_id].count() != h.chunk_count
}

/// A data chunk completes its message: with it, as many distinct chunks have
/// come as the message has.
pub open spec fn chunk_completes(partial: Map<u64, PartialMessage>, h: DatagramDataHeader) -> bool {
    let known = partial.contains_key(h.message_id);
    let prev_len = if known {
        partial[h.message_id].received_len() as int
    } else {
        0int
    };
    let dup = known && partial[h.message_id].chunks().contains_key(h.chunk_index as u64);
    prev_len + (if dup {
        0int
    } else {
        1int
    }) == h.chunk_count
}

/// The bytes of the acknowledgement of a message.
pub open spec fn ack_bytes(stream: StreamId, id: u64) -> Seq<u8> {
    packet_bytes(PacketModel::Ack(DatagramAck { stream_id: stream, message_id: id }))
}

/// The frames are the completed messages from `first` on, in order.
pub open spec fn frames_from(completed: Map<u64, Vec<u8>>, first: int, frames: Seq<Vec<u8>>) -> bool
    decreases frames.len(),
{
    if frames.len() == 0 {
        true
    } else {
        let key = (first + frames.len() - 1) as u64;
        &&& frames_from(completed, first, frames.drop_last())
        &&& completed.contains_key(key)
        &&& frames.last() == completed[key]
    }
}

proof fn lemma_frames_at(completed: Map<u64, Vec<u8>>, first: int, frames: Seq<Vec<u8>>, i: int)
    requires
        frames_from(completed, first, frames),
        0 <= i < frames.len(),
    ensures
        completed.contains_key((first + i) as u64),
        frames[i] == completed[(first + i) as u64],
    decreases frames.len(),
{
    if i < frames.len() - 1 {
        lemma_frames_at(completed, first, frames.drop_last(), i);
        assert(frames.drop_last()[i] == frames[i]);
    }
}

/// From key `from` on, the map holds what `reference` holds.
pub open spec fn agrees_from(cur: Map<u64, Vec<u8>>, reference: Map<u64, Vec<u8>>, from: int) -> bool {
    forall|key: u64|
        #![trigger cur.contains_key(key)]
        key >= from ==> ((cur.contains_key(key) == reference.contains_key(key)) && (
        reference.contains_key(key) ==> cur[key] == reference[key]))
}

proof fn lemma_frames_push(completed: Map<u64, Vec<u8>>, first: int, frames: Seq<Vec<u8>>, frame: Vec<u8>)
    requires
        frames_from(completed, first, frames),
        completed.contains_key((first + frames.len()) as u64),
        frame == completed[(first + frames.len()) as u64],
    ensures
        frames_from(completed, first, frames.push(frame)),
{
    assert(frames.push(frame).drop_last() =~= frames);
}

proof fn lemma_agrees_after_pop(
    before: Map<u64, Vec<u8>>,
    after: Map<u64, Vec<u8>>,
    reference: Map<u64, Vec<u8>>,
    e: u64,
)
    requires
        agrees_from(before, reference, e as int),
        after == before.remove(e),
    ensures
        agrees_from(after, reference, e + 1),
{
    assert forall|key: u64| #![trigger after.contains_key(key)] key >= e + 1 implies ((after.contains_key(key) == reference.contains_key(key)) && (
        reference.contains_key(key) ==> after[key] == reference[key])) by {
        assert(key != e);
        assert(before.contains_key(key) == reference.contains_key(key));
    }
}

/// What handling a data chunk that does not conflict does: the chunk joins
/// its message; a completed message is acknowledged and joins the completed
/// ones (`mid`); completed messages are delivered in order from the next
/// expected one on, until one is missing.
pub open spec fn data_outcome(
    old: DatagramTransportState,
    fin: DatagramTransportState,
    h: DatagramDataHeader,
    o: DatagramIngressOutcome,
) -> bool {
    let id = h.message_id;
    let done = chunk_completes(old.inbound_partial(), h);
    let k = o.ready_frames@.len();
    &&& !fin.is_closed()
    &&& o.close_code is None
    &&& fin.in_flight() == old.in_flight()
    &&& o.outbound_datagrams@.len() == (if done {
        1int
    } else {
        0int
    })
    &&& done ==> o.outbound_datagrams@[0]@ == ack_bytes(old.stream(), id)
    &&& fin.inbound_partial().remove(id) == old.inbound_partial().remove(id)
    &&& fin.inbound_partial().contains_key(id) == !done
    &&& fin.inbound_expected() == (if old.inbound_expected() + k <= u64::MAX {
        old.inbound_expected() + k
    } else {
        u64::MAX as int
    })
    &&& exists|mid: Map<u64, Vec<u8>>|
        #![trigger frames_from(mid, old.inbound_expected() as int, o.ready_frames@)]
        {
            &&& frames_from(mid, old.inbound_expected() as int, o.ready_frames@)
            &&& mid.remove(id) == old.inbound_completed().remove(id)
            &&& done ==> mid.contains_key(id)
            &&& !done ==> mid == old.inbound_completed()
        }
    &&& (fin.inbound_expected() == u64::MAX || !fin.inbound_completed().contains_key(
        fin.inbound_expected(),
    ))
}

/// The chunk indices that a repair request asks to resend of a pending
/// message.
pub open spec fn repair_request_indices(p: PendingDatagramMessage, ranges: Seq<DatagramChunkRange>) -> Seq<int> {
    repair_indices(ranges, p.chunks@.len())
}

/// What answering a repair request does: nothing for a message no longer in
/// flight; a message whose repair budget the request exceeds is refused; else
/// the requested chunks are resent, in order, unless one of them cannot be
/// encoded.
pub open spec fn repair_answer(
    old: DatagramTransportState,
    fin: DatagramTransportState,
    id: u64,
    ranges: Seq<DatagramChunkRange>,
    r: Result<DatagramIngressOutcome, DatagramSessionError>,
) -> bool {
    &&& !fin.is_closed()
    &&& if !old.in_flight().contains_key(id) {
        &&& r is Ok
        &&& r->Ok_0.outbound_datagrams@.len() == 0
        &&& r->Ok_0.ready_frames@.len() == 0
        &&& r->Ok_0.close_code is None
        &&& fin.in_flight() == old.in_flight()
    } else {
        let p = old.in_flight()[id];
        let attempts = if p.repair_attempts + 1 > u32::MAX {
            u32::MAX as int
        } else {
            p.repair_attempts + 1
        };
        let idx = repair_request_indices(p, ranges);
        if attempts > old.config().max_repair_attempts {
            r == Err::<DatagramIngressOutcome, DatagramSessionError>(
                DatagramSessionError::RepairBudgetExceeded { message_id: id },
            )
        } else if forall|k: int|
            0 <= k < idx.len() ==> packet_encode_error(repair_packet(p, #[trigger] idx[k])) is None {
            &&& r is Ok
            &&& r->Ok_0.outbound_datagrams@.len() == idx.len()
            &&& forall|k: int|
                0 <= k < idx.len() ==> (#[trigger] r->Ok_0.outbound_datagrams@[k])@ == packet_bytes(
                    repair_packet(p, idx[k]),
                )
            &&& r->Ok_0.ready_frames@.len() == 0
            &&& r->Ok_0.close_code is None
        } else {
            r is Err && r->Err_0 is Wire
        }
    }
}

/// One datagram stream: outbound message numbering and send window, inbound
/// reassembly and repair budgets, and counters.
pub struct DatagramTransportState {
    stream_id: StreamId,
    reliability: DatagramReliabilityConfig,
    next_outbound_message_id: u64,
    send_window: DatagramSendWindow,
    reassembly: DatagramReassemblyBuffer,
    inbound_repair_attempts: U64Map<u32>,
    closed: bool,
    metrics: DatagramSessionMetrics,
}

impl DatagramTransportState {
    pub closed spec fn wf(&self) -> bool {
        &&& self.send_window.wf()
        &&& self.reassembly.wf()
        &&& self.inbound_repair_attempts.wf()
        &&& self.reassembly.acknowledged_ids().len() == 0
    }

    pub closed spec fn is_closed(&self) -> bool {
        self.closed
    }

    pub closed spec fn stream(&self) -> StreamId {
        self.stream_id
    }

    pub closed spec fn config(&self) -> DatagramReliabilityConfig {
        self.reliability
    }

    pub closed spec fn next_message_id(&self) -> u64 {
        self.next_outbound_message_id
    }

    pub closed spec fn counters(&self) -> DatagramSessionMetrics {
        self.metrics
    }

    /// The sent messages awaiting acknowledgement.
    pub closed spec fn in_flight(&self) -> Map<u64, PendingDatagramMessage> {
        self.send_window.pending_map()
    }

    /// The next inbound message to deliver.
    pub closed spec fn inbound_expected(&self) -> u64 {
        self.reassembly.expected()
    }

    /// Inbound messages with chunks still missing.
    pub closed spec fn inbound_partial(&self) -> Map<u64, PartialMessage> {
        self.reassembly.partial_map()
    }

    /// Completed inbound messages not yet delivered.
    pub closed spec fn inbound_completed(&self) -> Map<u64, Vec<u8>> {
        self.reassembly.completed_map()
    }

    pub fn new(stream_id: StreamId, reliability: DatagramReliabilityConfig) -> (s: Self)
        ensures
            s.wf(),
            !s.is_closed(),
            s.stream() == stream_id,
            s.config() == reliability,
            s.next_message_id() == 0,
            s.inbound_expected() == 0,
            s.in_flight() == Map::<u64, PendingDatagramMessage>::empty(),
            s.counters() == (DatagramSessionMetrics {
                outbound_messages: 0,
                outbound_datagrams: 0,
                retransmitted_datagrams: 0,
                acknowledged_messages: 0,
                repair_requests_sent: 0,
                repair_requests_received: 0,
                duplicate_chunks_ignored: 0,
            }),
    {
        DatagramTransportState {
            stream_id,
            reliability,
            next_outbound_message_id: 0,
            send_window: DatagramSendWindow::new(),
            reassembly: DatagramReassemblyBuffer::new(),
            inbound_repair_attempts: U64Map::new(),
            closed: false,
            metrics: DatagramSessionMetrics {
                outbound_messages: 0,
                outbound_datagrams: 0,
                retransmitted_datagrams: 0,
                acknowledged_messages: 0,
                repair_requests_sent: 0,
                repair_requests_received: 0,
                duplicate_chunks_ignored: 0,
            },
        }
    }

    pub fn stream_id(&self) -> (s: StreamId)
        ensures
            s == self.stream(),
    {
        self.stream_id
    }

    pub fn reliability(&self) -> (c: DatagramReliabilityConfig)
        ensures
            c == self.config(),
    {
        self.reliability
    }

    pub fn metrics(&self) -> (m: &DatagramSessionMetrics)
        ensures
            *m == self.counters(),
    {
        &self.metrics
    }

    pub fn expected_inbound_message_id(&self) -> (id: u64)
        ensures
            id == self.inbound_expected(),
    {
        self.reassembly.expected_message_id()
    }

    /// Cuts a frame into datagrams under the next message id and keeps the
    /// chunks for repair.
    pub fn encode_transport_frame(&mut self, frame: &[u8]) -> (r: Result<
        Vec<Vec<u8>>,
        DatagramSessionError,
    >)
        requires
            old(self).wf(),
        ensures
            old(self).is_closed() ==> *final(self) == *old(self),
            final(self).wf(),
            final(self).stream() == old(self).stream(),
            final(self).config() == old(self).config(),
            old(self).is_closed() ==> r == Err::<Vec<Vec<u8>>, DatagramSessionError>(
                DatagramSessionError::SessionClosed,
            ) && final(self).next_message_id() == old(self).next_message_id() && final(self).in_flight()
                == old(self).in_flight(),
            !old(self).is_closed() ==> final(self).next_message_id() == sat_add_u64(
                old(self).next_message_id(),
                1,
            ) && !final(self).is_closed(),
            r is Ok ==> !old(self).is_closed() && frame_encoding_ok(
                old(self).stream(),
                old(self).next_message_id(),
                frame@,
                old(self).config(),
                r->Ok_0@,
            ),
    {
        if self.closed {
            return Err(DatagramSessionError::SessionClosed);
        }
        let message_id = self.next_outbound_message_id;
        self.next_outbound_message_id = self.next_outbound_message_id.saturating_add(1);
        let packets = match fragment_transport_frame(
            self.stream_id,
            message_id,
            frame,
            self.reliability,
        ) {
            Ok(p) => p,
            Err(e) => return Err(DatagramSessionError::Wire(e)),
        };
        proof {
            let size: nat = if old(self).reliability.target_datagram_payload_size_bytes == 0 {
                1
            } else {
                old(self).reliability.target_datagram_payload_size_bytes as nat
            };
            let total = chunk_total(frame@.len(), size);
            let cnt: nat = if total == 0 {
                1
            } else {
                total
            };
            assert(fragment_ok(
                old(self).stream_id,
                old(self).next_outbound_message_id,
                frame@,
                size,
                cnt as u16,
                packets@,
            ));
        }
        let mut chunks: Vec<Vec<u8>> = Vec::new();
        let mut i: usize = 0;
        while i < packets.len()
            invariant
                i <= packets@.len(),
            decreases packets@.len() - i,
        {
            match &packets[i] {
                DatagramPacket::Data { payload, .. } => {
                    chunks.push(copy_range(payload.as_slice(), 0, payload.len()));
                },
                _ => {},
            }
            i = i + 1;
        }
        let count = packets.len();
        proof {
            assert(self.send_window.wf());
        }
        self.send_window.insert(
            PendingDatagramMessage {
                stream_id: self.stream_id,
                message_id,
                chunks,
                repair_attempts: 0,
            },
            self.reliability.max_in_flight_messages,
        );
        self.metrics.outbound_messages = self.metrics.outbound_messages.saturating_add(1);
        self.metrics.outbound_datagrams = self.metrics.outbound_datagrams.saturating_add(
            count as u64,
        );
        let ghost sent = packets@;
        match encode_datagram_frames(packets) {
            Ok(frames) => {
                proof {
                    let size: nat = if old(self).config().target_datagram_payload_size_bytes == 0 {
                        1
                    } else {
                        old(self).config().target_datagram_payload_size_bytes as nat
                    };
                    let total = chunk_total(frame@.len(), size);
                    let cnt: nat = if total == 0 {
                        1
                    } else {
                        total
                    };
                    assert(fragment_ok(
                        old(self).stream(),
                        old(self).next_message_id(),
                        frame@,
                        size,
                        cnt as u16,
                        sent,
                    ));
                    assert(frames@.len() == sent.len());
                    assert forall|i: int| 0 <= i < sent.len() implies (#[trigger] frames@[i])@
                        == packet_bytes(sent[i]@) by {
                        assert(packet_encode_error(sent[i]@) is None);
                    }
                    assert(frame_encoding_ok(
                        old(self).stream(),
                        old(self).next_message_id(),
                        frame@,
                        old(self).config(),
                        frames@,
                    ));
                    assert(!old(self).is_closed());
                }
                Ok(frames)
            },
            Err(e) => Err(DatagramSessionError::Wire(e)),
        }
    }

    /// Encodes several frames in turn, stopping at the first failure.
    pub fn encode_transport_frames(&mut self, frames: &[Vec<u8>]) -> (r: Result<
        Vec<Vec<u8>>,
        DatagramSessionError,
    >)
        requires
            old(self).wf(),
        ensures
            old(self).is_closed() ==> *final(self) == *old(self),
            final(self).wf(),
            old(self).is_closed() && frames@.len() > 0 ==> r == Err::<
                Vec<Vec<u8>>,
                DatagramSessionError,
            >(DatagramSessionError::SessionClosed),
            frames@.len() == 0 ==> r is Ok && r->Ok_0@.len() == 0,
    {
        let mut out: Vec<Vec<u8>> = Vec::new();
        let mut i: usize = 0;
        while i < frames.len()
            invariant
                self.wf(),
                i <= frames@.len(),
                i > 0 ==> !self.is_closed(),
                i == 0 ==> self.is_closed() == old(self).is_closed(),
                i == 0 ==> out@.len() == 0,
                old(self).is_closed() ==> i == 0,
                old(self).is_closed() ==> *self == *old(self),
            decreases frames@.len() - i,
        {
            let encoded = match self.encode_transport_frame(frames[i].as_slice()) {
                Ok(e) => e,
                Err(e) => return Err(e),
            };
            let mut j: usize = 0;
            while j < encoded.len()
                invariant
                    j <= encoded@.len(),
                decreases encoded@.len() - j,
            {
                out.push(copy_range(encoded[j].as_slice(), 0, encoded[j].len()));
                j = j + 1;
            }
            i = i + 1;
        }
        Ok(out)
    }

    /// Takes in one data chunk of an open session: see `data_outcome`.
    fn ingest_data(&mut self, header: DatagramDataHeader, payload: Vec<u8>) -> (r: Result<
        DatagramIngressOutcome,
        DatagramSessionError,
    >)
        requires
            old(self).wf(),
            !old(self).is_closed(),
        ensures
            final(self).wf(),
            final(self).stream() == old(self).stream(),
            final(self).config() == old(self).config(),
            if chunk_count_conflict(old(self).inbound_partial(), header) {
                r == Err::<DatagramIngressOutcome, DatagramSessionError>(
                    DatagramSessionError::Wire(
                        DatagramWireError::InvalidChunkIndex {
                            chunk_index: header.chunk_index,
                            chunk_count: header.chunk_count,
                        },
                    ),
                )
            } else {
                r is Ok && data_outcome(*old(self), *final(self), header, r->Ok_0)
            },
    {
        let mut outcome = DatagramIngressOutcome {
            outbound_datagrams: Vec::new(),
            ready_frames: Vec::new(),
            close_code: None,
        };
        let ghost old_partial = self.reassembly.partial_map();
        let ghost old_completed = self.reassembly.completed_map();
        let ghost e0 = self.reassembly.expected();
        let already_complete = self.reassembly.missing_ranges_for(header.message_id).is_none()
            && header.message_id < self.reassembly.expected_message_id();
        let complete = match self.reassembly.insert_data(header, payload) {
            Ok(c) => c,
            Err(e) => return Err(DatagramSessionError::Wire(e)),
        };
        let ghost p1 = self.reassembly.partial_map();
        let ghost c1 = self.reassembly.completed_map();
        assert(complete == chunk_completes(old_partial, header));
        if !complete && already_complete {
            self.metrics.duplicate_chunks_ignored =
                self.metrics.duplicate_chunks_ignored.saturating_add(1);
        }
        let acked = self.reassembly.take_acknowledged();
        assert(acked@ == (if complete {
            seq![header.message_id]
        } else {
            Seq::<u64>::empty()
        }));
        let mut i: usize = 0;
        while i < acked.len()
            invariant
                i <= acked@.len(),
                self.send_window.wf(),
                self.reassembly.wf(),
                self.inbound_repair_attempts.wf(),
                self.stream() == old(self).stream(),
                self.config() == old(self).config(),
                !self.is_closed(),
                self.in_flight() == old(self).in_flight(),
                self.reassembly.partial_map() == p1,
                self.reassembly.completed_map() == c1,
                self.reassembly.expected() == e0,
                outbound_close_free(outcome.close_code),
                outcome.close_code is None,
                outcome.ready_frames@.len() == 0,
                outcome.outbound_datagrams@.len() == i,
                forall|j: int| 0 <= j < i ==> (#[trigger] outcome.outbound_datagrams@[j])@
                    == ack_bytes(self.stream(), acked@[j]),
            decreases acked@.len() - i,
        {
            let ack = DatagramPacket::Ack(
                DatagramAck { stream_id: self.stream_id, message_id: acked[i] },
            );
            match ack.to_bytes() {
                Ok(bytes) => outcome.outbound_datagrams.push(bytes),
                Err(e) => return Err(DatagramSessionError::Wire(e)),
            }
            i = i + 1;
        }
        self.reassembly.clear_acknowledged();
        let ghost ob = outcome.outbound_datagrams@;
        loop
            invariant_except_break
                e0 + outcome.ready_frames@.len() <= u64::MAX,
            invariant
                self.wf(),
                self.stream() == old(self).stream(),
                self.config() == old(self).config(),
                !self.is_closed(),
                self.in_flight() == old(self).in_flight(),
                outbound_close_free(outcome.close_code),
                outcome.close_code is None,
                outcome.outbound_datagrams@ == ob,
                self.reassembly.partial_map() == p1,
                e0 + outcome.ready_frames@.len() <= u64::MAX + 1,
                self.reassembly.expected() == (if e0 + outcome.ready_frames@.len() <= u64::MAX {
                    e0 + outcome.ready_frames@.len()
                } else {
                    u64::MAX as int
                }),
                frames_from(c1, e0 as int, outcome.ready_frames@),
                agrees_from(self.reassembly.completed_map(), c1, e0 + outcome.ready_frames@.len()),
            ensures
                self.reassembly.expected() == u64::MAX || !self.reassembly.completed_map().contains_key(
                    self.reassembly.expected(),
                ),
            decreases u64::MAX - self.reassembly.expected(),
        {
            let ghost before = self.reassembly.completed_map();
            let ghost e = self.reassembly.expected();
            let ghost prev = outcome.ready_frames@;
            let popped = self.reassembly.pop_next_ready();
            match popped {
                Some((_id, frame)) => {
                    let ghost fr = frame;
                    outcome.ready_frames.push(frame);
                    proof {
                        assert(e == e0 + prev.len());
                        lemma_frames_push(c1, e0 as int, prev, fr);
                        lemma_agrees_after_pop(before, self.reassembly.completed_map(), c1, e);
                    }
                    if self.reassembly.expected_message_id() == u64::MAX {
                        break;
                    }
                },
                None => {
                    break;
                },
            }
        }
        proof {
            let id = header.message_id;
            let done = chunk_completes(old(self).inbound_partial(), header);
            assert(done == complete);
            assert(!self.is_closed());
            assert(outcome.close_code is None);
            assert(self.in_flight() == old(self).in_flight());
            assert(outcome.outbound_datagrams@.len() == (if done { 1int } else { 0int }));
            assert(done ==> outcome.outbound_datagrams@[0]@ == ack_bytes(old(self).stream(), id));
            assert(self.inbound_partial().remove(id) == old(self).inbound_partial().remove(id));
            assert(self.inbound_partial().contains_key(id) == !done);
            assert(frames_from(c1, e0 as int, outcome.ready_frames@));
            assert(c1.remove(id) == old(self).inbound_completed().remove(id));
            assert(done ==> c1.contains_key(id));
            assert(!done ==> c1 == old(self).inbound_completed());
            assert(self.inbound_expected() == u64::MAX || !self.inbound_completed().contains_key(self.inbound_expected()));
        }
        Ok(outcome)
    }

    /// Answers a repair request of an open session: see `repair_answer`.
    fn answer_repair(&mut self, repair: DatagramRepairRequest) -> (r: Result<
        DatagramIngressOutcome,
        DatagramSessionError,
    >)
        requires
            old(self).wf(),
            !old(self).is_closed(),
        ensures
            final(self).wf(),
            final(self).stream() == old(self).stream(),
            final(self).config() == old(self).config(),
            repair_answer(*old(self), *final(self), repair.message_id, repair.missing_ranges@, r),
    {
        let mut outcome = DatagramIngressOutcome {
            outbound_datagrams: Vec::new(),
            ready_frames: Vec::new(),
            close_code: None,
        };
        self.metrics.repair_requests_received =
            self.metrics.repair_requests_received.saturating_add(1);
        match self.send_window.take(repair.message_id) {
            Some(mut pending) => {
                pending.repair_attempts = pending.repair_attempts.saturating_add(1);
                if pending.repair_attempts > self.reliability.max_repair_attempts {
                    self.send_window.put_back(pending);
                    return Err(
                        DatagramSessionError::RepairBudgetExceeded {
                            message_id: repair.message_id,
                        },
                    );
                }
                let repair_packets = repair_packets_for_message(
                    &pending,
                    repair.missing_ranges.as_slice(),
                );
                let ghost pend = pending;
                let ghost rp = repair_packets@;
                let ghost p0 = old(self).in_flight()[repair.message_id];
                let ghost idx = repair_request_indices(p0, repair.missing_ranges@);
                proof {
                    assert forall|j: int| repair_packet(pend, j) == repair_packet(p0, j) by {}
                    assert(idx == repair_indices(repair.missing_ranges@, pend.chunks@.len()));
                }
                self.send_window.put_back(pending);
                self.metrics.retransmitted_datagrams =
                    self.metrics.retransmitted_datagrams.saturating_add(
                    repair_packets.len() as u64,
                );
                match encode_datagram_frames(repair_packets) {
                    Ok(frames) => {
                        proof {
                            assert forall|k: int| 0 <= k < idx.len() implies packet_encode_error(
                                repair_packet(p0, #[trigger] idx[k]),
                            ) is None && frames@[k]@ == packet_bytes(repair_packet(p0, idx[k])) by {
                                assert(rp[k]@ == repair_packet(pend, idx[k]));
                            }
                        }
                        outcome.outbound_datagrams = frames;
                    },
                    Err(e) => return Err(DatagramSessionError::Wire(e)),
                }
            },
            None => {
                assert(self.in_flight() =~= old(self).in_flight());
            },
        }
        Ok(outcome)
    }

    /// Handles one inbound datagram: data chunks are reassembled (completed
    /// messages are acknowledged and delivered in order), acknowledgements
    /// retire sent messages, repair requests resend chunks within the repair
    /// budget, and a close packet closes the session.
    pub fn handle_datagram(&mut self, datagram: &[u8]) -> (r: Result<
        DatagramIngressOutcome,
        DatagramSessionError,
    >)
        requires
            old(self).wf(),
        ensures
            old(self).is_closed() ==> *final(self) == *old(self),
            final(self).wf(),
            final(self).stream() == old(self).stream(),
            final(self).config() == old(self).config(),
            old(self).is_closed() ==> r == Err::<DatagramIngressOutcome, DatagramSessionError>(
                DatagramSessionError::SessionClosed,
            ),
            !old(self).is_closed() ==> match parse_packet(datagram@) {
                Err(e) => r == Err::<DatagramIngressOutcome, DatagramSessionError>(
                    DatagramSessionError::Wire(e),
                ),
                Ok(p) => {
                    let sid = match p {
                        PacketModel::Bootstrap { stream_id, .. } => stream_id,
                        PacketModel::Data { header, .. } => header.stream_id,
                        PacketModel::Ack(a) => a.stream_id,
                        PacketModel::RepairRequest { stream_id, .. } => stream_id,
                        PacketModel::Keepalive(k) => k.stream_id,
                        PacketModel::Close(c) => c.stream_id,
                    };
                    if sid != old(self).stream() {
                        r == Err::<DatagramIngressOutcome, DatagramSessionError>(
                            DatagramSessionError::UnexpectedStreamId {
                                expected: old(self).stream(),
                                actual: sid,
                            },
                        )
                    } else {
                        match p {
                            PacketModel::Close(c) => r is Ok && r->Ok_0.close_code == Some(c.code)
                                && final(self).is_closed() && r->Ok_0.outbound_datagrams@.len() == 0
                                && r->Ok_0.ready_frames@.len() == 0,
                            PacketModel::Ack(a) => r is Ok && final(self).in_flight() == old(self).in_flight().remove(a.message_id) && !final(self).is_closed()
                                && r->Ok_0.close_code is None,
                            PacketModel::Keepalive(_) => r is Ok && final(self).in_flight() == old(self).in_flight() && r->Ok_0.outbound_datagrams@.len() == 0
                                && r->Ok_0.ready_frames@.len() == 0 && r->Ok_0.close_code is None,
                            PacketModel::Bootstrap { .. } => r is Ok && final(self).in_flight()
                                == old(self).in_flight() && r->Ok_0.outbound_datagrams@.len() == 0
                                && r->Ok_0.ready_frames@.len() == 0 && r->Ok_0.close_code is None,
                            PacketModel::Data { header, .. } => if chunk_count_conflict(old(self).inbound_partial(), header) {
                                r == Err::<DatagramIngressOutcome, DatagramSessionError>(
                                    DatagramSessionError::Wire(
                                        DatagramWireError::InvalidChunkIndex {
                                            chunk_index: header.chunk_index,
                                            chunk_count: header.chunk_count,
                                        },
                                    ),
                                )
                            } else {
                                r is Ok && data_outcome(*old(self), *final(self), header, r->Ok_0)
                            },
                            PacketModel::RepairRequest { message_id, missing_ranges, .. } => repair_answer(
                                *old(self),
                                *final(self),
                                message_id,
                                missing_ranges,
                                r,
                            ),
                        }
                    }
                },
            },
    {
        if self.closed {
            return Err(DatagramSessionError::SessionClosed);
        }
        let packet = match decode_datagram_frame(datagram) {
            Ok(p) => p,
            Err(e) => return Err(DatagramSessionError::Wire(e)),
        };
        let sid = packet.stream_id();
        if sid.0 != self.stream_id.0 {
            return Err(
                DatagramSessionError::UnexpectedStreamId { expected: self.stream_id, actual: sid },
            );
        }
        let mut outcome = DatagramIngressOutcome {
            outbound_datagrams: Vec::new(),
            ready_frames: Vec::new(),
            close_code: None,
        };
        match packet {
            DatagramPacket::Bootstrap { .. } => {},
            DatagramPacket::Data { header, payload } => {
                return self.ingest_data(header, payload);
            },
            DatagramPacket::Ack(ack) => {
                if self.send_window.acknowledge(ack.message_id) {
                    self.metrics.acknowledged_messages =
                        self.metrics.acknowledged_messages.saturating_add(1);
                }
            },
            DatagramPacket::RepairRequest(repair) => {
                return self.answer_repair(repair);
            },
            DatagramPacket::Keepalive(_) => {},
            DatagramPacket::Close(close) => {
                self.closed = true;
                outcome.close_code = Some(close.code);
            },
        }
        Ok(outcome)
    }

    /// Asks for the missing chunks of every incomplete inbound message, one
    /// request per message, charging each message's repair budget.
    pub fn build_repair_requests(&mut self) -> (r: Result<Vec<Vec<u8>>, DatagramSessionError>)
        requires
            old(self).wf(),
        ensures
            old(self).is_closed() ==> *final(self) == *old(self),
            final(self).wf(),
            final(self).is_closed() == old(self).is_closed(),
            final(self).in_flight() == old(self).in_flight(),
            old(self).is_closed() ==> r == Err::<Vec<Vec<u8>>, DatagramSessionError>(
                DatagramSessionError::SessionClosed,
            ),
    {
        if self.closed {
            return Err(DatagramSessionError::SessionClosed);
        }
        let mut out: Vec<Vec<u8>> = Vec::new();
        let message_ids = self.reassembly.incomplete_message_ids();
        let mut i: usize = 0;
        while i < message_ids.len()
            invariant
                self.wf(),
                !self.is_closed(),
                !old(self).is_closed(),
                self.in_flight() == old(self).in_flight(),
                i <= message_ids@.len(),
            decreases message_ids@.len() - i,
        {
            let message_id = message_ids[i];
            let attempts: u32 = match self.inbound_repair_attempts.get(message_id) {
                Some(a) => *a,
                None => 0,
            };
            let attempts = attempts.saturating_add(1);
            self.inbound_repair_attempts.insert(message_id, attempts);
            if attempts > self.reliability.max_repair_attempts {
                return Err(DatagramSessionError::RepairBudgetExceeded { message_id });
            }
            match self.reassembly.missing_ranges_for(message_id) {
                Some(missing_ranges) => {
                    if missing_ranges.len() > 0 {
                        let packet = DatagramPacket::RepairRequest(
                            DatagramRepairRequest {
                                stream_id: self.stream_id,
                                message_id,
                                missing_ranges,
                            },
                        );
                        match packet.to_bytes() {
                            Ok(bytes) => out.push(bytes),
                            Err(e) => return Err(DatagramSessionError::Wire(e)),
                        }
                        self.metrics.repair_requests_sent =
                            self.metrics.repair_requests_sent.saturating_add(1);
                    }
                },
                None => {},
            }
            i = i + 1;
        }
        Ok(out)
    }

    pub fn encode_keepalive(&self) -> (r: Result<Vec<u8>, DatagramSessionError>)
        ensures
            self.is_closed() ==> r == Err::<Vec<u8>, DatagramSessionError>(
                DatagramSessionError::SessionClosed,
            ),
            !self.is_closed() ==> r is Ok && r->Ok_0@ == packet_bytes(
                PacketModel::Keepalive(DatagramKeepalive { stream_id: self.stream() }),
            ),
    {
        if self.closed {
            return Err(DatagramSessionError::SessionClosed);
        }
        match DatagramPacket::Keepalive(DatagramKeepalive { stream_id: self.stream_id }).to_bytes() {
            Ok(b) => Ok(b),
            Err(e) => Err(DatagramSessionError::Wire(e)),
        }
    }

    /// Closes the session, giving the close datagram to send.
    pub fn encode_close(&mut self, code: u16) -> (r: Result<Vec<u8>, DatagramSessionError>)
        requires
            old(self).wf(),
        ensures
            old(self).is_closed() ==> *final(self) == *old(self),
            final(self).wf(),
            final(self).is_closed(),
            final(self).stream() == old(self).stream(),
            old(self).is_closed() ==> r == Err::<Vec<u8>, DatagramSessionError>(
                DatagramSessionError::SessionClosed,
            ),
            !old(self).is_closed() ==> r is Ok && r->Ok_0@ == packet_bytes(
                PacketModel::Close(DatagramClose { stream_id: old(self).stream(), code }),
            ),
    {
        if self.closed {
            return Err(DatagramSessionError::SessionClosed);
        }
        self.closed = true;
        match DatagramPacket::Close(DatagramClose { stream_id: self.stream_id, code }).to_bytes() {
            Ok(b) => Ok(b),
            Err(e) => Err(DatagramSessionError::Wire(e)),
        }
    }
}

/// Once a range fails to parse, every longer parse fails with the same error.
proof fn lemma_parse_ranges_err_sticks(s: Seq<u8>, k: nat, n: nat)
    requires
        k <= n,
        parse_ranges(s, k) is Err,
    ensures
        parse_ranges(s, n) == parse_ranges(s, k),
    decreases n - k,
{
    if k < n {
        lemma_parse_ranges_err_sticks(s, k, (n - 1) as nat);
    }
}

proof fn lemma_ranges_bytes_len(rs: Seq<DatagramChunkRange>)
    ensures
        ranges_bytes(rs).len() == 4 * rs.len(),
    decreases rs.len(),
{
    if rs.len() > 0 {
        lemma_ranges_bytes_len(rs.drop_last());
    }
}

proof fn lemma_ranges_bytes_at(rs: Seq<DatagramChunkRange>, k: int)
    requires
        0 <= k < rs.len(),
    ensures
        ranges_bytes(rs).subrange(4 * k, 4 * k + 2) == u16_le(rs[k].start_chunk_index),
        ranges_bytes(rs).subrange(4 * k + 2, 4 * k + 4) == u16_le(rs[k].end_chunk_index_inclusive),
    decreases rs.len(),
{
    let init = rs.drop_last();
    lemma_ranges_bytes_len(init);
    let b = ranges_bytes(rs);
    if k < rs.len() - 1 {
        lemma_ranges_bytes_at(init, k);
        lemma_ranges_bytes_len(init);
        assert(b.subrange(4 * k, 4 * k + 2) =~= ranges_bytes(init).subrange(4 * k, 4 * k + 2));
        assert(b.subrange(4 * k + 2, 4 * k + 4) =~= ranges_bytes(init).subrange(
            4 * k + 2,
            4 * k + 4,
        ));
    } else {
        assert(b.subrange(4 * k, 4 * k + 2) =~= u16_le(rs[k].start_chunk_index));
        assert(b.subrange(4 * k + 2, 4 * k + 4) =~= u16_le(rs[k].end_chunk_index_inclusive));
    }
}

proof fn lemma_parse_ranges_prefix(s: Seq<u8>, rs: Seq<DatagramChunkRange>, n: nat)
    requires
        n <= rs.len(),
        s.len() == DATAGRAM_REPAIR_BASE_LEN + 4 * rs.len(),
        s.subrange(DATAGRAM_REPAIR_BASE_LEN as int, s.len() as int) == ranges_bytes(rs),
        forall|i: int|
            0 <= i < rs.len() ==> (#[trigger] rs[i]).start_chunk_index
                <= rs[i].end_chunk_index_inclusive,
    ensures
        parse_ranges(s, n) == Ok::<Seq<DatagramChunkRange>, DatagramWireError>(
            rs.subrange(0, n as int),
        ),
    decreases n,
{
    if n == 0 {
        assert(rs.subrange(0, 0) =~= Seq::<DatagramChunkRange>::empty());
    } else {
        let k = n - 1;
        assert(rs[k].start_chunk_index <= rs[k].end_chunk_index_inclusive);
        lemma_parse_ranges_prefix(s, rs, k as nat);
        lemma_ranges_bytes_at(rs, k);
        let tail = s.subrange(DATAGRAM_REPAIR_BASE_LEN as int, s.len() as int);
        assert(s.subrange(19 + 4 * k, 19 + 4 * k + 2) =~= tail.subrange(4 * k, 4 * k + 2));
        assert(s.subrange(19 + 4 * k + 2, 19 + 4 * k + 4) =~= tail.subrange(
            4 * k + 2,
            4 * k + 4,
        ));
        lemma_u16_le_roundtrip(rs[k].start_chunk_index, s, 19 + 4 * k);
        lemma_u16_le_roundtrip(rs[k].end_chunk_index_inclusive, s, 19 + 4 * k + 2);
        assert(rs.subrange(0, k).push(rs[k]) =~= rs.subrange(0, n as int));
    }
}

#[verifier::spinoff_prover]
#[verifier::rlimit(50)]
proof fn lemma_bootstrap_packet_roundtrip(stream_id: StreamId, frame: Seq<u8>)
    requires
        frame.len() <= u16::MAX,
    ensures
        parse_packet(packet_bytes(PacketModel::Bootstrap { stream_id, frame })) == Ok::<
            PacketModel,
            DatagramWireError,
        >(PacketModel::Bootstrap { stream_id, frame }),
{
    let s = packet_bytes(PacketModel::Bootstrap { stream_id, frame });
    assert(s.subrange(2, 10) =~= u64_le(stream_id.0));
    assert(s.subrange(22, 24) =~= u16_le(frame.len() as u16));
    lemma_u64_le_roundtrip(stream_id.0, s, 2);
    lemma_u16_le_roundtrip(frame.len() as u16, s, 22);
    assert(s.subrange(24, s.len() as int) =~= frame);
}

#[verifier::spinoff_prover]
#[verifier::rlimit(50)]
proof fn lemma_data_packet_roundtrip(header: DatagramDataHeader, payload: Seq<u8>)
    requires
        payload.len() == header.payload_len,
        header.chunk_count > 0,
        header.chunk_index < header.chunk_count,
    ensures
        parse_packet(packet_bytes(PacketModel::Data { header, payload })) == Ok::<
            PacketModel,
            DatagramWireError,
        >(PacketModel::Data { header, payload }),
{
    let s = packet_bytes(PacketModel::Data { header, payload });
    assert(s.subrange(2, 10) =~= u64_le(header.stream_id.0));
    assert(s.subrange(10, 18) =~= u64_le(header.message_id));
    assert(s.subrange(18, 20) =~= u16_le(header.chunk_index));
    assert(s.subrange(20, 22) =~= u16_le(header.chunk_count));
    assert(s.subrange(22, 24) =~= u16_le(header.payload_len));
    lemma_u64_le_roundtrip(header.stream_id.0, s, 2);
    lemma_u64_le_roundtrip(header.message_id, s, 10);
    lemma_u16_le_roundtrip(header.chunk_index, s, 18);
    lemma_u16_le_roundtrip(header.chunk_count, s, 20);
    lemma_u16_le_roundtrip(header.payload_len, s, 22);
    assert(s.subrange(24, s.len() as int) =~= payload);
}

proof fn lemma_repair_packet_roundtrip(
    stream_id: StreamId,
    message_id: u64,
    missing_ranges: Seq<DatagramChunkRange>,
)
    requires
        missing_ranges.len() <= u8::MAX,
        packet_well_formed(PacketModel::RepairRequest { stream_id, message_id, missing_ranges }),
    ensures
        parse_packet(packet_bytes(PacketModel::RepairRequest { stream_id, message_id, missing_ranges }))
            == Ok::<PacketModel, DatagramWireError>(
            PacketModel::RepairRequest { stream_id, message_id, missing_ranges },
        ),
{
    let p = PacketModel::RepairRequest { stream_id, message_id, missing_ranges };
    let s = packet_bytes(p);
    lemma_ranges_bytes_len(missing_ranges);
    assert(s.subrange(2, 10) =~= u64_le(stream_id.0));
    assert(s.subrange(10, 18) =~= u64_le(message_id));
    lemma_u64_le_roundtrip(stream_id.0, s, 2);
    lemma_u64_le_roundtrip(message_id, s, 10);
    assert(s[18] == missing_ranges.len() as u8);
    assert(s.subrange(19, s.len() as int) =~= ranges_bytes(missing_ranges));
    lemma_parse_ranges_prefix(s, missing_ranges, missing_ranges.len());
    assert(missing_ranges.subrange(0, missing_ranges.len() as int) =~= missing_ranges);
}

/// Every well-formed, encodable packet decodes to itself.
pub proof fn lemma_packet_roundtrip(p: PacketModel)
    requires
        packet_encode_error(p) is None,
        packet_well_formed(p),
    ensures
        parse_packet(packet_bytes(p)) == Ok::<PacketModel, DatagramWireError>(p),
{
    let s = packet_bytes(p);
    match p {
        PacketModel::Bootstrap { stream_id, frame } => lemma_bootstrap_packet_roundtrip(
            stream_id,
            frame,
        ),
        PacketModel::Data { header, payload } => lemma_data_packet_roundtrip(header, payload),
        PacketModel::Ack(a) => {
            assert(s.subrange(2, 10) =~= u64_le(a.stream_id.0));
            assert(s.subrange(10, 18) =~= u64_le(a.message_id));
            lemma_u64_le_roundtrip(a.stream_id.0, s, 2);
            lemma_u64_le_roundtrip(a.message_id, s, 10);
        },
        PacketModel::RepairRequest { stream_id, message_id, missing_ranges } => {
            lemma_repair_packet_roundtrip(stream_id, message_id, missing_ranges);
        },
        PacketModel::Keepalive(k) => {
            assert(s.subrange(2, 10) =~= u64_le(k.stream_id.0));
            lemma_u64_le_roundtrip(k.stream_id.0, s, 2);
        },
        PacketModel::Close(c) => {
            assert(s.subrange(2, 10) =~= u64_le(c.stream_id.0));
            assert(s.subrange(10, 12) =~= u16_le(c.code));
            lemma_u64_le_roundtrip(c.stream_id.0, s, 2);
            lemma_u16_le_roundtrip(c.code, s, 10);
        },
    }
}

} // verus!
