use wasm_h3::error::{H3Error, TransportError};
use wasm_h3::time::TimeSpan;
use wasm_h3::transport::connection::{require_connected, ConnectionId, ConnectionState};
use wasm_h3::transport::packet::{
    ack_frame_for, AckFrame, AckRange, AckTracker, LossDetector, Packet, PacketHeader, PacketType,
    RttEstimator,
};

#[test]
fn test_packet_type_parsing() {
    assert_eq!(PacketType::from_byte(0x80), Some(PacketType::Initial));
    assert_eq!(PacketType::from_byte(0x90), Some(PacketType::ZeroRTT));
    assert_eq!(PacketType::from_byte(0xA0), Some(PacketType::Handshake));
    assert_eq!(PacketType::from_byte(0x40), Some(PacketType::OneRTT));
    assert_eq!(PacketType::from_byte(0xFF), None);
}

#[test]
fn test_packet_header_encoding() {
    let connection_id = ConnectionId([1; 16]);
    let header = PacketHeader::new(PacketType::Initial, connection_id, 42);

    let encoded = header.encode().unwrap();
    assert!(!encoded.is_empty());

    let (decoded, _) = PacketHeader::decode(&encoded).unwrap();
    assert_eq!(decoded.packet_type, PacketType::Initial);
    assert_eq!(decoded.connection_id, connection_id);
    assert_eq!(decoded.packet_number, 42);
}

#[test]
fn test_packet_encoding() {
    let connection_id = ConnectionId([2; 16]);
    let payload = b"test payload".to_vec();
    let packet = Packet::new(PacketType::OneRTT, connection_id, 123, payload.clone());

    let encoded = packet.encode().unwrap();
    let decoded = Packet::decode(&encoded).unwrap();

    assert_eq!(decoded.header.packet_type, PacketType::OneRTT);
    assert_eq!(decoded.header.connection_id, connection_id);
    assert_eq!(decoded.header.packet_number, 123);
    assert_eq!(decoded.payload, payload);
}

#[test]
fn test_ack_frame() {
    let mut ack_frame = AckFrame::new(100, TimeSpan::from_millis(10));
    ack_frame.add_range(50, 60);
    ack_frame.add_range(80, 90);

    assert!(ack_frame.is_acked(55));
    assert!(ack_frame.is_acked(85));
    assert!(ack_frame.is_acked(100));
    assert!(!ack_frame.is_acked(70));

    let encoded = ack_frame.encode().unwrap();
    let decoded = AckFrame::decode(&encoded).unwrap();

    assert_eq!(decoded.largest_acked, 100);
    assert_eq!(decoded.ranges.len(), 3);
}

#[test]
fn test_ack_tracker() {
    let mut tracker = AckTracker::new();

    tracker.track_received(1);
    tracker.track_received(2);
    tracker.track_received(4);
    tracker.track_received(5);

    let ack_frame = tracker.generate_ack().unwrap();
    assert_eq!(ack_frame.largest_acked, 5);
    assert!(ack_frame.is_acked(1));
    assert!(ack_frame.is_acked(2));
    assert!(!ack_frame.is_acked(3));
    assert!(ack_frame.is_acked(4));
    assert!(ack_frame.is_acked(5));
}

#[test]
fn test_rtt_estimator() {
    let mut estimator = RttEstimator::new();

    estimator.update(TimeSpan::from_millis(100));
    assert_eq!(estimator.srtt(), Some(TimeSpan::from_millis(100)));

    estimator.update(TimeSpan::from_millis(200));
    let srtt = estimator.srtt().unwrap();
    assert!(srtt.nanos > TimeSpan::from_millis(100).nanos);
    assert!(srtt.nanos < TimeSpan::from_millis(200).nanos);

    let rto = estimator.rto();
    assert!(rto.nanos >= TimeSpan::from_millis(200).nanos);
    assert!(rto.nanos <= TimeSpan::from_secs(2).nanos);
}

// Own tests.

#[test]
fn header_bytes_are_exact() {
    let header = PacketHeader::new(PacketType::OneRTT, ConnectionId([7; 16]), 0x0102_0304_0506);
    let encoded = header.encode().unwrap();
    let mut expected = vec![0x40];
    expected.extend_from_slice(&[7; 16]);
    expected.extend_from_slice(&[0x03, 0x04, 0x05, 0x06]);
    assert_eq!(encoded, expected);
    let (decoded, used) = PacketHeader::decode(&encoded).unwrap();
    assert_eq!(used, encoded.len());
    // Only the low 32 bits of the packet number travel.
    assert_eq!(decoded.packet_number, 0x0304_0506);
}

#[test]
fn long_header_with_source_round_trips() {
    let mut header = PacketHeader::new(PacketType::Handshake, ConnectionId([3; 16]), 9);
    header.source_connection_id = Some(ConnectionId([4; 16]));
    header.version = Some(7);
    let encoded = header.encode().unwrap();
    assert_eq!(encoded.len(), 43);
    let (decoded, used) = PacketHeader::decode(&encoded).unwrap();
    assert_eq!(used, 43);
    // The handshake type byte 0x82 reads back as Initial.
    assert_eq!(decoded.packet_type, PacketType::Initial);
    assert_eq!(decoded.version, Some(7));
    assert_eq!(decoded.source_connection_id, Some(ConnectionId([4; 16])));
    assert_eq!(decoded.packet_number, 9);
}

#[test]
fn header_decode_errors() {
    let msg = |r: Result<(PacketHeader, usize), H3Error>| match r {
        Err(H3Error::Transport(TransportError::InvalidPacket(m))) => m,
        _ => panic!("Expected InvalidPacket"),
    };
    assert_eq!(msg(PacketHeader::decode(&[])), "Empty packet");
    assert_eq!(msg(PacketHeader::decode(&[0xF0])), "Invalid packet type");
    assert_eq!(msg(PacketHeader::decode(&[0x80, 0, 0])), "Incomplete version");
    assert_eq!(msg(PacketHeader::decode(&[0x80, 0, 0, 0, 1])), "Missing DCID length");
    assert_eq!(msg(PacketHeader::decode(&[0x80, 0, 0, 0, 1, 4, 1])), "Incomplete DCID");
    assert_eq!(msg(PacketHeader::decode(&[0x80, 0, 0, 0, 1, 0])), "Missing SCID length");
    assert_eq!(msg(PacketHeader::decode(&[0x80, 0, 0, 0, 1, 0, 2, 1])), "Incomplete SCID");
    assert_eq!(msg(PacketHeader::decode(&[0x40, 1, 2])), "Incomplete connection ID");
}

#[test]
fn short_connection_ids_are_zero_filled() {
    let (h, used) = PacketHeader::decode(&[0x80, 0, 0, 0, 1, 2, 9, 9, 0]).unwrap();
    let mut expected = [0u8; 16];
    expected[0] = 9;
    expected[1] = 9;
    assert_eq!(h.connection_id, ConnectionId(expected));
    assert_eq!(h.source_connection_id, None);
    assert_eq!(used, 9);
    assert_eq!(h.packet_number, 0);
}

#[test]
fn ack_frame_round_trip_exact() {
    let mut f = AckFrame::new(7, TimeSpan::from_nanos(2_500_999));
    f.add_range(1, 3);
    let encoded = f.encode().unwrap();
    assert_eq!(encoded.len(), 1 + 24 + 32);
    let d = AckFrame::decode(&encoded).unwrap();
    assert_eq!(d.largest_acked, 7);
    // The delay travels in whole microseconds.
    assert_eq!(d.ack_delay, TimeSpan::from_micros(2500));
    assert_eq!(d.ranges, vec![AckRange::new(1, 3), AckRange::new(7, 7)]);
}

#[test]
fn ack_frame_decode_errors() {
    let msg = |r: Result<AckFrame, H3Error>| match r {
        Err(H3Error::Transport(TransportError::InvalidFrame(m))) => m,
        _ => panic!("Expected InvalidFrame"),
    };
    assert_eq!(msg(AckFrame::decode(&[])), "Empty ACK frame");
    assert_eq!(msg(AckFrame::decode(&[3])), "Not an ACK frame");
    assert_eq!(msg(AckFrame::decode(&[2, 0, 0])), "Incomplete ACK frame");
    let mut one_range_missing = vec![2u8];
    one_range_missing.extend_from_slice(&[0; 16]);
    one_range_missing.extend_from_slice(&[0, 0, 0, 0, 0, 0, 0, 1]);
    assert_eq!(msg(AckFrame::decode(&one_range_missing)), "Incomplete ACK range");
}

#[test]
fn ack_ranges_sort_stably_by_first() {
    let mut f = AckFrame::new(10, TimeSpan::zero());
    f.add_range(10, 12);
    f.add_range(2, 3);
    assert_eq!(f.ranges, vec![AckRange::new(2, 3), AckRange::new(10, 10), AckRange::new(10, 12)]);
    assert_eq!(AckRange::new(2, 3).size(), 2);
    assert!(AckRange::new(2, 3).contains(3));
}

#[test]
fn ack_frame_for_acknowledges_runs_and_the_largest() {
    let f = ack_frame_for(&vec![9, 1, 3, 2, 7], TimeSpan::zero());
    assert_eq!(f.largest_acked, 9);
    assert!(f.is_acked(1) && f.is_acked(2) && f.is_acked(3) && f.is_acked(9));
    // 7 is neither the largest nor in a run of consecutive numbers.
    assert!(!f.is_acked(7));
    assert_eq!(f.ranges, vec![AckRange::new(1, 3), AckRange::new(9, 9)]);
}

#[test]
fn tracker_keeps_the_last_thousand_numbers() {
    let mut tracker = AckTracker::new();
    for n in 0..1005u64 {
        tracker.track_received(n);
    }
    let f = tracker.generate_ack().unwrap();
    assert_eq!(f.largest_acked, 1004);
    assert!(f.is_acked(5));
    assert!(!f.is_acked(4));
    // A second ACK right away is held back by the delay threshold.
    assert!(tracker.generate_ack().is_none());
}

#[test]
fn tracker_processes_acks() {
    let mut tracker = AckTracker::new();
    assert!(tracker.generate_ack().is_none());
    tracker.track_sent(Packet::new(PacketType::OneRTT, ConnectionId([0; 16]), 1, vec![1]));
    tracker.track_sent(Packet::new(PacketType::OneRTT, ConnectionId([0; 16]), 2, vec![2]));
    let mut not_eliciting = Packet::new(PacketType::OneRTT, ConnectionId([0; 16]), 3, vec![3]);
    not_eliciting.ack_eliciting = false;
    tracker.track_sent(not_eliciting);
    assert_eq!(tracker.unacked_count(), 2);
    let acked = tracker.process_ack(&AckFrame::new(2, TimeSpan::zero()));
    assert_eq!(acked.len(), 1);
    assert_eq!(acked[0].header.packet_number, 2);
    assert_eq!(acked[0].payload, vec![2]);
    assert_eq!(tracker.unacked_count(), 1);
    assert!(tracker.get_lost_packets(TimeSpan::from_secs(3600)).is_empty());
    let mut detector = LossDetector::new();
    assert!(detector.detect_loss(&tracker).is_empty());
}

#[test]
fn rtt_and_loss_detector_values() {
    let mut e = RttEstimator::new();
    assert_eq!(e.rto(), TimeSpan::from_millis(1500));
    e.update(TimeSpan::from_millis(100));
    assert_eq!(e.min_rtt(), Some(TimeSpan::from_millis(100)));
    // rttvar = 50 ms: rto = 100 + 200 ms.
    assert_eq!(e.rto(), TimeSpan::from_millis(300));
    e.update(TimeSpan::from_millis(200));
    // srtt = (7 * 100 + 200) / 8 = 112.5 ms; rttvar = (3 * 50 + 100) / 4 = 62.5 ms.
    assert_eq!(e.srtt(), Some(TimeSpan::from_micros(112_500)));
    assert_eq!(e.min_rtt(), Some(TimeSpan::from_millis(100)));
    let mut d = LossDetector::new();
    assert_eq!(d.rto(), TimeSpan::from_millis(500));
    d.update_rtt(TimeSpan::from_millis(10));
    // 10 + 4 * 5 = 30 ms, raised to the 200 ms floor.
    assert_eq!(d.rto(), TimeSpan::from_millis(200));
}

#[test]
fn packet_size_and_decode() {
    let p = Packet::new(PacketType::Initial, ConnectionId([5; 16]), 1, vec![0; 10]);
    assert_eq!(p.size(), 74);
    let encoded = p.encode().unwrap();
    let d = Packet::decode(&encoded).unwrap();
    assert_eq!(d.payload, vec![0; 10]);
    assert!(Packet::decode(&[0xFF]).is_err());
}

#[test]
fn operations_need_a_connected_connection() {
    assert!(require_connected(ConnectionState::Connected, "open stream").is_ok());
    match require_connected(ConnectionState::Closed, "open stream") {
        Err(H3Error::Connection(wasm_h3::error::ConnectionError::InvalidState(m))) => {
            assert_eq!(m, "Cannot open stream in state: Closed");
        }
        _ => panic!("Expected InvalidState"),
    }
}

#[test]
fn ack_generation_follows_the_clock_readings() {
    let mut tracker = AckTracker::new();
    assert!(tracker.generate_ack_at(TimeSpan::from_secs(1), std::time::Instant::now()).is_none());
    tracker.track_received(3);
    tracker.track_received(4);
    let first = tracker.generate_ack_at(TimeSpan::from_secs(9), std::time::Instant::now()).unwrap();
    assert_eq!(first.largest_acked, 4);
    assert_eq!(first.ack_delay, TimeSpan::zero());
    // Within the default 25 ms threshold nothing is generated.
    assert!(tracker.generate_ack_at(TimeSpan::from_millis(10), std::time::Instant::now()).is_none());
    let second = tracker.generate_ack_at(TimeSpan::from_millis(30), std::time::Instant::now()).unwrap();
    assert_eq!(second.ack_delay, TimeSpan::from_millis(30));
    assert_eq!(second.largest_acked, 4);
}

#[test]
fn loss_from_given_ages() {
    let d = LossDetector::new();
    let ages = vec![
        (1u64, TimeSpan::from_millis(100)),
        (2u64, TimeSpan::from_millis(600)),
        (3u64, TimeSpan::from_millis(500)),
        (4u64, TimeSpan::from_secs(2)),
    ];
    assert_eq!(d.lost_given_ages(&ages), vec![2, 4]);
    assert!(d.lost_given_ages(&Vec::new()).is_empty());
}

#[test]
fn lost_packets_follow_given_ages() {
    let mut tracker = AckTracker::new();
    tracker.track_sent(Packet::new(PacketType::OneRTT, ConnectionId([0; 16]), 1, vec![1]));
    tracker.track_sent(Packet::new(PacketType::OneRTT, ConnectionId([0; 16]), 2, vec![2]));
    let ages = vec![(1u64, TimeSpan::from_millis(50)), (2u64, TimeSpan::from_millis(700))];
    let lost = tracker.lost_packets_given_ages(&ages, TimeSpan::from_millis(500));
    assert_eq!(lost.len(), 1);
    assert_eq!(lost[0].header.packet_number, 2);
    // Freshly sent packets are not older than a long timeout.
    assert!(tracker.get_lost_packets(TimeSpan::from_secs(3600)).is_empty());
}

#[test]
fn first_ack_is_generated_at_once() {
    let mut tracker = AckTracker::new();
    tracker.track_received(7);
    let f = tracker.generate_ack().unwrap();
    assert_eq!(f.largest_acked, 7);
    assert_eq!(f.ack_delay, TimeSpan::zero());
}
