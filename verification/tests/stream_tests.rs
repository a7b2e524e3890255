use wasm_h3::config::StreamConfig;
use wasm_h3::error::{H3Error, StreamError};
use wasm_h3::protocol::flow_control::FlowControlEvent;
use wasm_h3::protocol::frame::{H3Frame, HeaderList};
use wasm_h3::protocol::stream::{
    StreamEvent, StreamManager, StreamPriority, StreamSchedule, StreamState, StreamStateType,
    StreamType, idle_exceeds,
};
use wasm_h3::time::TimeSpan;

#[test]
fn test_stream_type_from_id() {
    assert_eq!(StreamType::from_id(0), StreamType::ClientBidirectional);
    assert_eq!(StreamType::from_id(1), StreamType::ServerBidirectional);
    assert_eq!(StreamType::from_id(2), StreamType::ClientUnidirectional);
    assert_eq!(StreamType::from_id(3), StreamType::ServerUnidirectional);
    assert_eq!(StreamType::from_id(4), StreamType::ClientBidirectional);
}

#[test]
fn test_stream_creation() {
    let config = StreamConfig::default();
    let mut manager = StreamManager::new(config, true);

    let stream_id = manager.create_stream(StreamType::ClientBidirectional).unwrap();
    assert_eq!(stream_id, 0);

    let stream_id = manager.create_stream(StreamType::ClientBidirectional).unwrap();
    assert_eq!(stream_id, 4);
}

#[test]
fn test_stream_state_transitions() {
    let config = StreamConfig::default();
    let mut stream = StreamState::new(0, &config);
    stream.state = StreamStateType::Open;

    let frame = H3Frame::Headers { stream_id: 0, headers: HeaderList::new(), end_stream: false, priority: None };

    let events = stream.process_frame(&frame).unwrap();
    assert_eq!(events.len(), 1);
    assert!(matches!(events[0], StreamEvent::HeadersReceived { .. }));
    assert!(stream.headers_received);
}

#[test]
fn test_data_frame_processing() {
    let config = StreamConfig::default();
    let mut stream = StreamState::new(0, &config);
    stream.state = StreamStateType::Open;

    let data = b"test data".to_vec();
    let frame = H3Frame::Data { stream_id: 0, data: data.clone(), end_stream: true };

    let events = stream.process_frame(&frame).unwrap();
    assert_eq!(events.len(), 2);

    match &events[0] {
        StreamEvent::DataReceived { stream_id, data: received_data } => {
            assert_eq!(*stream_id, 0);
            assert_eq!(*received_data, data);
        }
        _ => panic!("Expected DataReceived event"),
    }

    assert!(matches!(events[1], StreamEvent::EndStreamReceived { .. }));
    assert_eq!(stream.state, StreamStateType::HalfClosedRemote);
}

#[test]
fn test_stream_priority_scheduling() {
    let config = StreamConfig::default();
    let mut manager = StreamManager::new(config, true);

    let high_priority = StreamSchedule { priority: StreamPriority::High, weight: 32, dependent_on: None, exclusive: false };
    let low_priority = StreamSchedule { priority: StreamPriority::Low, weight: 8, dependent_on: None, exclusive: false };

    let stream1 = manager.create_stream_with_priority(StreamType::ClientBidirectional, high_priority).unwrap();
    let stream2 = manager.create_stream_with_priority(StreamType::ClientBidirectional, low_priority).unwrap();

    let sendable = manager.get_sendable_streams();
    assert_eq!(sendable[0], stream1);
    assert_eq!(sendable[1], stream2);
}

#[test]
fn test_stream_dependency_tree() {
    let config = StreamConfig::default();
    let mut manager = StreamManager::new(config, true);

    let parent_id = manager.create_stream(StreamType::ClientBidirectional).unwrap();

    let child_schedule = StreamSchedule { priority: StreamPriority::Normal, weight: 16, dependent_on: Some(parent_id), exclusive: false };

    let child_id = manager.create_stream_with_priority(StreamType::ClientBidirectional, child_schedule).unwrap();

    let children = manager.get_stream_children(parent_id);
    assert_eq!(children.len(), 1);
    assert_eq!(children[0], child_id);
}

#[test]
fn test_concurrent_stream_limit() {
    let config = StreamConfig::default();
    let mut manager = StreamManager::new(config, true);
    manager.set_max_concurrent_streams(2);

    let _stream1 = manager.create_stream(StreamType::ClientBidirectional).unwrap();
    let _stream2 = manager.create_stream(StreamType::ClientBidirectional).unwrap();

    let result = manager.create_stream(StreamType::ClientBidirectional);
    assert!(result.is_err());
    assert!(matches!(result.unwrap_err(), H3Error::Stream(StreamError::LimitExceeded)));
}

#[test]
fn test_stream_flow_control() {
    let config = StreamConfig::default();
    let mut stream = StreamState::new(0, &config);
    stream.state = StreamStateType::Open;

    let result = stream.send_data(100, false);
    assert!(result.is_ok());
    assert_eq!(stream.send_window, config.initial_window_size - 100);
    assert_eq!(stream.bytes_sent, 100);

    let result = stream.update_send_window(50);
    assert!(result.is_ok());
    assert_eq!(stream.send_window, config.initial_window_size - 100 + 50);
}

#[test]
fn test_stream_lifecycle_management() {
    let config = StreamConfig::default();
    let mut stream = StreamState::new(0, &config);

    assert_eq!(stream.state, StreamStateType::Idle);
    stream.open().unwrap();
    assert_eq!(stream.state, StreamStateType::Open);

    stream.send_headers(false).unwrap();
    assert!(stream.headers_sent);

    stream.send_data(100, true).unwrap();
    assert_eq!(stream.state, StreamStateType::HalfClosedLocal);
    assert!(stream.end_stream_sent);
}

#[test]
fn test_stream_reset() {
    let config = StreamConfig::default();
    let mut manager = StreamManager::new(config, true);

    let stream_id = manager.create_stream(StreamType::ClientBidirectional).unwrap();

    manager.reset_stream(stream_id, 0x100).unwrap();

    let stream = manager.get_stream_ref(stream_id).unwrap();
    assert_eq!(stream.state, StreamStateType::Closed);
    assert!(stream.reset);
    assert_eq!(stream.reset_error_code, Some(0x100));
}

#[test]
fn test_stream_statistics() {
    let config = StreamConfig::default();
    let mut manager = StreamManager::new(config, true);

    let _stream1 = manager.create_stream(StreamType::ClientBidirectional).unwrap();
    let stream2 = manager.create_stream(StreamType::ClientBidirectional).unwrap();

    manager.close_stream(stream2).unwrap();

    let stats = manager.get_stream_stats();
    assert_eq!(stats.total_streams, 2);
    assert_eq!(stats.open_streams, 1);
    assert_eq!(stats.closed_streams, 1);
}

#[test]
fn test_remote_stream_acceptance() {
    let config = StreamConfig::default();
    let mut manager = StreamManager::new(config, true);

    assert!(manager.can_accept_stream(1));
    assert!(manager.can_accept_stream(3));

    assert!(!manager.can_accept_stream(0));
    assert!(!manager.can_accept_stream(2));

    manager.accept_stream(1).unwrap();
    assert!(manager.stream_exists(1));
    // The highest accepted identifier is now 1: it is refused again, 3 is still welcome.
    assert!(!manager.can_accept_stream(1));
    assert!(manager.can_accept_stream(3));
}

#[test]
fn test_window_update_detection() {
    let config = StreamConfig::default();
    let mut stream = StreamState::new(0, &config);
    stream.state = StreamStateType::Open;

    let large_data = vec![0u8; (config.initial_window_size / 2 + 1) as usize];
    stream.recv_window -= large_data.len() as u32;
    stream.bytes_received += large_data.len() as u64;

    assert!(stream.needs_window_update());

    let increment = stream.calculate_window_update();
    assert!(increment > 0);
}

#[test]
fn test_flow_control_integration() {
    let config = StreamConfig::default();
    let initial_window = config.initial_window_size;
    let mut manager = StreamManager::new(config, true);

    let stream_id = manager.create_stream(StreamType::ClientBidirectional).unwrap();

    assert!(manager.can_send_data(stream_id, 1000));

    let events = manager.reserve_send_window(stream_id, 1000).unwrap();
    assert!(events.is_empty());

    assert_eq!(manager.send_window(stream_id), initial_window - 1000);
    assert_eq!(manager.connection_send_window(), initial_window - 1000);
}

#[test]
fn stream_test_flow_control_blocking() {
    let config = StreamConfig::default();
    let initial_window = config.initial_window_size;
    let mut manager = StreamManager::new(config, true);

    let stream_id = manager.create_stream(StreamType::ClientBidirectional).unwrap();

    let large_size = initial_window + 1000;
    assert!(!manager.can_send_data(stream_id, large_size));

    let events = manager.reserve_send_window(stream_id, large_size).unwrap();
    assert_eq!(events.len(), 1);

    match &events[0] {
        FlowControlEvent::FlowControlBlocked { stream_id: blocked_id, .. } => {
            assert_eq!(*blocked_id, stream_id);
        }
        _ => panic!("Expected FlowControlBlocked event"),
    }
}

#[test]
fn test_received_data_flow_control() {
    let config = StreamConfig::default();
    let initial_window = config.initial_window_size;
    let mut manager = StreamManager::new(config, true);

    let stream_id = manager.create_stream(StreamType::ClientBidirectional).unwrap();

    let events = manager.process_received_data(stream_id, 1000).unwrap();
    assert!(events.is_empty());

    assert_eq!(manager.recv_window(stream_id), initial_window - 1000);
    assert_eq!(manager.connection_recv_window(), initial_window - 1000);
}

#[test]
fn stream_test_window_update_needed() {
    let config = StreamConfig::default();
    let initial_window = config.initial_window_size;
    let mut manager = StreamManager::new(config, true);

    let stream_id = manager.create_stream(StreamType::ClientBidirectional).unwrap();

    let large_data = (initial_window / 2) + 1000;
    let events = manager.process_received_data(stream_id, large_data).unwrap();

    assert!(!events.is_empty());

    let mut stream_update_found = false;
    for event in &events {
        if let FlowControlEvent::WindowUpdateNeeded { stream_id: update_id, .. } = event {
            if *update_id == stream_id {
                stream_update_found = true;
            }
        }
    }
    assert!(stream_update_found);
}

#[test]
fn stream_test_send_window_update() {
    let config = StreamConfig::default();
    let mut manager = StreamManager::new(config, true);

    let stream_id = manager.create_stream(StreamType::ClientBidirectional).unwrap();

    manager.reserve_send_window(stream_id, 1000).unwrap();
    let initial_window = manager.send_window(stream_id);

    manager.update_send_window(stream_id, 500).unwrap();
    assert_eq!(manager.send_window(stream_id), initial_window + 500);
}

#[test]
fn stream_test_effective_send_window() {
    let config = StreamConfig::default();
    let mut manager = StreamManager::new(config, true);

    let stream_id = manager.create_stream(StreamType::ClientBidirectional).unwrap();

    let effective = manager.effective_send_window(stream_id);
    let initial_window = manager.send_window(stream_id);
    assert_eq!(effective, initial_window);

    manager.reserve_send_window(stream_id, 1000).unwrap();
    let new_effective = manager.effective_send_window(stream_id);
    assert_eq!(new_effective, initial_window - 1000);
}

#[test]
fn test_backpressure_handling() {
    let config = StreamConfig::default();
    let mut manager = StreamManager::new(config, true);

    let stream_id = manager.create_stream(StreamType::ClientBidirectional).unwrap();

    let initial_window = manager.send_window(stream_id);
    manager.reserve_send_window(stream_id, initial_window).unwrap();

    let blocked_streams = manager.handle_backpressure();
    assert_eq!(blocked_streams.len(), 1);
    assert_eq!(blocked_streams[0].0, stream_id);
    assert_eq!(blocked_streams[0].1, 0);
}

#[test]
fn test_flow_control_cleanup() {
    let config = StreamConfig::default();
    let mut manager = StreamManager::new(config, true);

    // Streams 0 and 4; stream 4 is open and known to flow control.
    let _ = manager.create_stream(StreamType::ClientBidirectional).unwrap();
    let stream_id = manager.create_stream(StreamType::ClientBidirectional).unwrap();
    assert_eq!(stream_id, 4);

    let initial_window = manager.send_window(stream_id);
    assert!(initial_window > 0);

    manager.close_stream(stream_id).unwrap();

    assert_eq!(manager.send_window(stream_id), 0);
}

#[test]
fn stream_test_flow_control_stats() {
    let config = StreamConfig::default();
    let mut manager = StreamManager::new(config, true);

    let _ = manager.create_stream(StreamType::ClientBidirectional).unwrap();
    let stream_id = manager.create_stream(StreamType::ClientBidirectional).unwrap();
    assert_eq!(stream_id, 4);

    manager.reserve_send_window(stream_id, 1000).unwrap();
    manager.process_received_data(stream_id, 500).unwrap();

    let flow_stats = manager.flow_control_stats();
    assert_eq!(flow_stats.total_bytes_sent, 1000);
    assert_eq!(flow_stats.total_bytes_received, 500);
    assert_eq!(flow_stats.active_streams, 1);
}

// Own tests.

#[test]
fn stream_transitions_follow_the_life_cycle() {
    let config = StreamConfig::default();
    let mut stream = StreamState::new(8, &config);
    assert!(stream.can_transition_to(StreamStateType::Open));
    stream.open().unwrap();
    assert!(stream.can_transition_to(StreamStateType::HalfClosedRemote));
    assert!(!stream.can_transition_to(StreamStateType::Idle));
    stream.update_state_on_end_stream_sent().unwrap();
    assert_eq!(stream.state, StreamStateType::HalfClosedLocal);
    let frame = H3Frame::Data { stream_id: 8, data: vec![1, 2, 3], end_stream: true };
    stream.process_frame(&frame).unwrap();
    assert_eq!(stream.state, StreamStateType::Closed);
    assert_eq!(stream.recv_window, config.initial_window_size - 3);
    // Closed is final: end-of-stream is refused with the state's name.
    match stream.update_state_on_end_stream_sent() {
        Err(H3Error::Stream(StreamError::InvalidState { expected, actual })) => {
            assert_eq!(expected, "Open or HalfClosedRemote");
            assert_eq!(actual, "Closed");
        }
        _ => panic!("Expected InvalidState"),
    }
}

#[test]
fn data_beyond_the_receive_window_is_refused() {
    let config = StreamConfig { initial_window_size: 4, ..StreamConfig::default() };
    let mut stream = StreamState::new(0, &config);
    stream.state = StreamStateType::Open;
    let frame = H3Frame::Data { stream_id: 0, data: vec![0; 5], end_stream: false };
    match stream.process_frame(&frame) {
        Err(H3Error::Stream(StreamError::InvalidState { expected, actual })) => {
            assert_eq!(expected, "sufficient flow control window");
            assert_eq!(actual, "window: 4, data: 5");
        }
        _ => panic!("Expected InvalidState"),
    }
    assert_eq!(stream.recv_window, 4);
}

#[test]
fn opening_twice_is_refused() {
    let config = StreamConfig::default();
    let mut stream = StreamState::new(0, &config);
    stream.open().unwrap();
    match stream.open() {
        Err(H3Error::Stream(StreamError::InvalidState { expected, actual })) => {
            assert_eq!(expected, "Idle");
            assert_eq!(actual, "Open");
        }
        _ => panic!("Expected InvalidState"),
    }
}

#[test]
fn headers_cannot_be_sent_twice() {
    let config = StreamConfig::default();
    let mut stream = StreamState::new(0, &config);
    stream.open().unwrap();
    stream.send_headers(false).unwrap();
    match stream.send_headers(false) {
        Err(H3Error::Stream(StreamError::InvalidState { expected, actual })) => {
            assert_eq!(expected, "headers not yet sent");
            assert_eq!(actual, "headers already sent");
        }
        _ => panic!("Expected InvalidState"),
    }
}

#[test]
fn server_side_allocation_and_wrong_side() {
    let config = StreamConfig::default();
    let mut manager = StreamManager::new(config, false);
    match manager.create_stream(StreamType::ClientBidirectional) {
        Err(H3Error::Stream(StreamError::InvalidState { expected, actual })) => {
            assert_eq!(expected, "client context");
            assert_eq!(actual, "server context");
        }
        _ => panic!("Expected InvalidState"),
    }
    assert_eq!(manager.next_stream_id(StreamType::ServerBidirectional), 0);
    assert_eq!(manager.create_stream(StreamType::ServerUnidirectional).unwrap(), 0);
    assert_eq!(manager.create_stream(StreamType::ServerUnidirectional).unwrap(), 4);
    assert_eq!(manager.next_stream_id(StreamType::ServerBidirectional), 8);
}

#[test]
fn accepting_a_refused_stream_reports_it() {
    let config = StreamConfig::default();
    let mut manager = StreamManager::new(config, true);
    match manager.accept_stream(2) {
        Err(H3Error::Stream(StreamError::InvalidState { expected, actual })) => {
            assert_eq!(expected, "acceptable stream");
            assert_eq!(actual, "stream 2 cannot be accepted");
        }
        _ => panic!("Expected InvalidState"),
    }
    let stream = {
        manager.accept_stream(5).unwrap();
        manager.get_stream_ref(5).unwrap().state
    };
    assert_eq!(stream, StreamStateType::Idle);
}

#[test]
fn unknown_streams_are_not_found() {
    let config = StreamConfig::default();
    let mut manager = StreamManager::new(config, true);
    assert!(matches!(manager.close_stream(9), Err(H3Error::Stream(StreamError::NotFound(9)))));
    assert!(matches!(manager.reset_stream(9, 1), Err(H3Error::Stream(StreamError::NotFound(9)))));
    assert!(manager.get_stream(9).is_none());
}

#[test]
fn get_stream_changes_the_managed_stream() {
    let config = StreamConfig::default();
    let mut manager = StreamManager::new(config, true);
    let id = manager.create_stream(StreamType::ClientBidirectional).unwrap();
    manager.get_stream(id).unwrap().send_window = 7;
    assert_eq!(manager.get_stream_ref(id).unwrap().send_window, 7);
}

#[test]
fn frames_open_unknown_streams() {
    let config = StreamConfig::default();
    let mut manager = StreamManager::new(config, true);
    let frame = H3Frame::Headers { stream_id: 12, headers: HeaderList::new(), end_stream: true, priority: None };
    let events = manager.process_frame(frame).unwrap();
    assert_eq!(events.len(), 2);
    assert_eq!(manager.get_stream_ref(12).unwrap().state, StreamStateType::HalfClosedRemote);
    assert!(manager.process_frame(H3Frame::MaxPushId { push_id: 1 }).unwrap().is_empty());
}

#[test]
fn scheduling_sorts_by_priority_then_weight() {
    let config = StreamConfig::default();
    let mut manager = StreamManager::new(config, true);
    let s = |p, w| StreamSchedule { priority: p, weight: w, dependent_on: None, exclusive: false };
    let a = manager.create_stream_with_priority(StreamType::ClientBidirectional, s(StreamPriority::Normal, 8)).unwrap();
    let b = manager.create_stream_with_priority(StreamType::ClientBidirectional, s(StreamPriority::Urgent, 1)).unwrap();
    let c = manager.create_stream_with_priority(StreamType::ClientBidirectional, s(StreamPriority::Normal, 200)).unwrap();
    let d = manager.create_stream_with_priority(StreamType::ClientBidirectional, s(StreamPriority::Normal, 8)).unwrap();
    assert_eq!(manager.get_sendable_streams(), vec![b, c, a, d]);
    manager.update_stream_priority(a, s(StreamPriority::Background, 8)).unwrap();
    assert_eq!(manager.get_sendable_streams(), vec![b, c, d, a]);
    manager.close_stream(c).unwrap();
    assert_eq!(manager.get_sendable_streams(), vec![b, d, a]);
}

#[test]
fn moving_a_stream_in_the_dependency_tree() {
    let config = StreamConfig::default();
    let mut manager = StreamManager::new(config, true);
    let p1 = manager.create_stream(StreamType::ClientBidirectional).unwrap();
    let p2 = manager.create_stream(StreamType::ClientBidirectional).unwrap();
    let dep = |p| StreamSchedule { priority: StreamPriority::Normal, weight: 16, dependent_on: Some(p), exclusive: false };
    let child = manager.create_stream_with_priority(StreamType::ClientBidirectional, dep(p1)).unwrap();
    manager.update_stream_priority(child, dep(p2)).unwrap();
    assert!(manager.get_stream_children(p1).is_empty());
    assert_eq!(manager.get_stream_children(p2), vec![child]);
}

#[test]
fn cleanup_of_closed_streams() {
    let config = StreamConfig::default();
    let mut manager = StreamManager::new(config, true);
    let a = manager.create_stream(StreamType::ClientBidirectional).unwrap();
    let b = manager.create_stream(StreamType::ClientBidirectional).unwrap();
    manager.close_stream(a).unwrap();
    manager.cleanup_closed_streams();
    assert!(!manager.stream_exists(a));
    assert!(manager.stream_exists(b));
    assert_eq!(manager.active_stream_count(), 1);
    let mut ids = manager.stream_ids();
    ids.sort();
    assert_eq!(ids, vec![b]);
}

#[test]
fn removing_streams_drops_their_state() {
    let config = StreamConfig::default();
    let mut manager = StreamManager::new(config, true);
    let _ = manager.create_stream(StreamType::ClientBidirectional).unwrap();
    let b = manager.create_stream(StreamType::ClientBidirectional).unwrap();
    manager.remove_streams(&vec![b]);
    assert!(!manager.stream_exists(b));
    assert_eq!(manager.send_window(b), 0);
    // A cleanup right after creation does nothing: less than 30 s have passed.
    manager.set_idle_timeout(TimeSpan::from_secs(1));
    manager.cleanup_idle_streams();
    assert_eq!(manager.active_stream_count(), 1);
}

#[test]
fn window_updates_and_flow_updates() {
    let config = StreamConfig::default();
    let mut manager = StreamManager::new(config, true);
    let _ = manager.create_stream(StreamType::ClientBidirectional).unwrap();
    let id = manager.create_stream(StreamType::ClientBidirectional).unwrap();
    manager.get_stream(id).unwrap().recv_window = 100;
    assert_eq!(manager.get_streams_needing_window_updates(), vec![(id, 65436)]);
    manager.process_received_data(id, 40000).unwrap();
    let mut updates = manager.get_streams_needing_flow_control_updates();
    updates.sort();
    assert_eq!(updates, vec![(0, 40000), (0, 40000), (id, 40000)]);
}

#[test]
fn cleanup_follows_the_clock_readings() {
    let config = StreamConfig::default();
    let mut manager = StreamManager::new(config, true);
    let a = manager.create_stream(StreamType::ClientBidirectional).unwrap();
    let b = manager.create_stream(StreamType::ClientBidirectional).unwrap();
    let c = manager.create_stream(StreamType::ClientBidirectional).unwrap();
    manager.set_idle_timeout(TimeSpan::from_secs(10));
    manager.reset_stream(a, 1).unwrap();
    let idle = vec![(b, TimeSpan::from_secs(11)), (c, TimeSpan::from_secs(10))];

    // Under 30 seconds since the last cleanup nothing happens.
    manager.cleanup_streams_at(TimeSpan::from_secs(29), &idle, std::time::Instant::now());
    assert!(manager.stream_exists(a) && manager.stream_exists(b) && manager.stream_exists(c));

    manager.cleanup_streams_at(TimeSpan::from_secs(30), &idle, std::time::Instant::now());
    assert!(!manager.stream_exists(a));
    assert!(!manager.stream_exists(b));
    assert!(manager.stream_exists(c));
}

#[test]
fn idle_exceeds_compares_strictly() {
    assert!(idle_exceeds(TimeSpan::from_secs(11), TimeSpan::from_secs(10)));
    assert!(!idle_exceeds(TimeSpan::from_secs(10), TimeSpan::from_secs(10)));
    let stream = StreamState::new(0, &StreamConfig::default());
    assert!(!stream.is_idle_timeout(TimeSpan::from_secs(3600)));
}
