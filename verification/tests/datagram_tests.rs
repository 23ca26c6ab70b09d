use shared_protocol::datagram::{
    fragment_transport_frame, DatagramChunkRange, DatagramDataHeader, DatagramPacket,
    DatagramReassemblyBuffer, DatagramReliabilityConfig, DatagramRepairRequest,
    DatagramSendWindow, PendingDatagramMessage,
};
use shared_protocol::protocol::StreamId;

#[test]
fn datagram_data_packet_round_trips() {
    let packet = DatagramPacket::Data {
        header: DatagramDataHeader {
            stream_id: StreamId(9),
            message_id: 7,
            chunk_index: 1,
            chunk_count: 3,
            payload_len: 4,
        },
        payload: vec![1, 2, 3, 4],
    };
    let encoded = packet.to_bytes().unwrap();
    let decoded = DatagramPacket::from_bytes(&encoded).unwrap();
    assert_eq!(decoded, packet);
}

#[test]
fn fragment_and_reassemble_transport_frame_round_trip() {
    let config = DatagramReliabilityConfig {
        target_datagram_payload_size_bytes: 5,
        ..DatagramReliabilityConfig::default()
    };
    let frame = b"abcdefghijk".to_vec();
    let packets = fragment_transport_frame(StreamId(5), 0, &frame, config).unwrap();
    assert_eq!(packets.len(), 3);
    let mut reassembly = DatagramReassemblyBuffer::default();
    for packet in [packets[1].clone(), packets[0].clone(), packets[2].clone()] {
        let DatagramPacket::Data { header, payload } = packet else {
            unreachable!();
        };
        reassembly.insert_data(header, payload).unwrap();
    }
    let (_message_id, rebuilt) = reassembly.pop_next_ready().unwrap();
    assert_eq!(rebuilt, frame);
}

#[test]
fn duplicate_chunk_is_ignored() {
    let config = DatagramReliabilityConfig {
        target_datagram_payload_size_bytes: 4,
        ..DatagramReliabilityConfig::default()
    };
    let frame = b"abcdefgh".to_vec();
    let packets = fragment_transport_frame(StreamId(1), 3, &frame, config).unwrap();
    let mut reassembly = DatagramReassemblyBuffer::default();
    let DatagramPacket::Data {
        header: first_header,
        payload: first_payload,
    } = packets[0].clone()
    else {
        unreachable!();
    };
    reassembly
        .insert_data(first_header, first_payload.clone())
        .unwrap();
    reassembly.insert_data(first_header, first_payload).unwrap();
    let missing = reassembly.missing_ranges_for(3).unwrap();
    assert_eq!(
        missing,
        vec![DatagramChunkRange {
            start_chunk_index: 1,
            end_chunk_index_inclusive: 1
        }]
    );
}

#[test]
fn send_window_acknowledge_retires_message() {
    let mut window = DatagramSendWindow::default();
    window.insert(
        PendingDatagramMessage {
            stream_id: StreamId(1),
            message_id: 9,
            chunks: vec![vec![1, 2, 3]],
            repair_attempts: 0,
        },
        8,
    );
    assert!(window.pending(9).is_some());
    assert!(window.acknowledge(9));
    assert!(window.pending(9).is_none());
}

#[test]
fn repair_request_packet_round_trips() {
    let packet = DatagramPacket::RepairRequest(DatagramRepairRequest {
        stream_id: StreamId(12),
        message_id: 42,
        missing_ranges: vec![
            DatagramChunkRange {
                start_chunk_index: 1,
                end_chunk_index_inclusive: 3,
            },
            DatagramChunkRange {
                start_chunk_index: 7,
                end_chunk_index_inclusive: 8,
            },
        ],
    });
    let decoded = DatagramPacket::from_bytes(&packet.to_bytes().unwrap()).unwrap();
    assert_eq!(decoded, packet);
}

#[test]
fn send_window_evicts_oldest_beyond_capacity() {
    let mut window = DatagramSendWindow::new();
    for id in 1..=3u64 {
        window.insert(
            PendingDatagramMessage {
                stream_id: StreamId(1),
                message_id: id,
                chunks: vec![vec![id as u8]],
                repair_attempts: 0,
            },
            2,
        );
    }
    assert!(window.pending(1).is_none());
    assert!(window.pending(2).is_some());
    assert!(window.pending(3).is_some());
}

#[test]
fn reassembly_reports_all_missing_chunks_of_partial_message() {
    let config = DatagramReliabilityConfig {
        target_datagram_payload_size_bytes: 2,
        ..DatagramReliabilityConfig::default()
    };
    let frame = b"abcdefgh".to_vec();
    let packets = fragment_transport_frame(StreamId(2), 0, &frame, config).unwrap();
    assert_eq!(packets.len(), 4);
    let mut reassembly = DatagramReassemblyBuffer::new();
    let DatagramPacket::Data { header, payload } = packets[2].clone() else {
        unreachable!();
    };
    reassembly.insert_data(header, payload).unwrap();
    let missing = reassembly.missing_ranges_for(0).unwrap();
    assert_eq!(
        missing,
        vec![
            DatagramChunkRange {
                start_chunk_index: 0,
                end_chunk_index_inclusive: 1
            },
            DatagramChunkRange {
                start_chunk_index: 3,
                end_chunk_index_inclusive: 3
            },
        ]
    );
    assert!(reassembly.pop_next_ready().is_none());
}
