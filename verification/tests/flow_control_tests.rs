use wasm_h3::error::{H3Error, StreamError};
use wasm_h3::protocol::flow_control::{FlowControlEvent, FlowController, MAX_WINDOW_SIZE};

#[test]
fn test_flow_controller_creation() {
    let controller = FlowController::new(65536, 32768);

    assert_eq!(controller.send_window(0), 65536);
    assert_eq!(controller.recv_window(0), 65536);
    assert_eq!(controller.initial_connection_window(), 65536);
    assert_eq!(controller.initial_stream_window(), 32768);
}

#[test]
fn test_stream_initialization() {
    let mut controller = FlowController::new(65536, 32768);

    controller.initialize_stream(1).unwrap();

    assert_eq!(controller.send_window(1), 32768);
    assert_eq!(controller.recv_window(1), 32768);
}

#[test]
fn test_send_window_reservation() {
    let mut controller = FlowController::new(65536, 32768);
    controller.initialize_stream(1).unwrap();

    let events = controller.reserve_send_window(1, 1000).unwrap();
    assert!(events.is_empty());

    assert_eq!(controller.send_window(1), 31768);
    assert_eq!(controller.send_window(0), 64536);
}

#[test]
fn flow_control_test_flow_control_blocking() {
    let mut controller = FlowController::new(1000, 500);
    controller.initialize_stream(1).unwrap();

    let events = controller.reserve_send_window(1, 600).unwrap();
    assert_eq!(events.len(), 1);

    match &events[0] {
        FlowControlEvent::FlowControlBlocked { stream_id, available_window, requested_bytes } => {
            assert_eq!(*stream_id, 1);
            assert_eq!(*available_window, 500);
            assert_eq!(*requested_bytes, 600);
        }
        _ => panic!("Expected FlowControlBlocked event"),
    }
}

#[test]
fn test_received_data_processing() {
    let mut controller = FlowController::new(65536, 32768);
    controller.initialize_stream(1).unwrap();

    let events = controller.process_received_data(1, 1000).unwrap();

    assert_eq!(controller.recv_window(1), 31768);
    assert_eq!(controller.recv_window(0), 64536);

    assert!(events.is_empty());
}

#[test]
fn flow_control_test_window_update_needed() {
    let mut controller = FlowController::new(1000, 1000);
    controller.initialize_stream(1).unwrap();

    let events = controller.process_received_data(1, 600).unwrap();

    assert!(!events.is_empty());

    let mut found = false;
    for event in &events {
        if let FlowControlEvent::WindowUpdateNeeded { stream_id, increment } = event {
            if *stream_id == 1 {
                found = true;
                assert_eq!(*increment, 600);
            }
        }
    }
    assert!(found, "Expected WindowUpdateNeeded event for stream 1");
}

#[test]
fn flow_control_test_send_window_update() {
    let mut controller = FlowController::new(65536, 32768);
    controller.initialize_stream(1).unwrap();

    controller.reserve_send_window(1, 1000).unwrap();
    assert_eq!(controller.send_window(1), 31768);

    controller.update_send_window(1, 500).unwrap();
    assert_eq!(controller.send_window(1), 32268);
}

#[test]
fn flow_control_test_effective_send_window() {
    let mut controller = FlowController::new(1000, 2000);
    controller.initialize_stream(1).unwrap();

    assert_eq!(controller.effective_send_window(1), 1000);

    controller.reserve_send_window(1, 500).unwrap();

    assert_eq!(controller.effective_send_window(1), 500);
}

#[test]
fn test_window_overflow_protection() {
    let mut controller = FlowController::new(65536, 32768);
    controller.initialize_stream(1).unwrap();

    let result = controller.update_send_window(1, MAX_WINDOW_SIZE);
    assert!(result.is_err());
}

#[test]
fn flow_control_test_flow_control_stats() {
    let mut controller = FlowController::new(65536, 32768);
    controller.initialize_stream(1).unwrap();
    controller.initialize_stream(2).unwrap();

    controller.reserve_send_window(1, 1000).unwrap();
    controller.process_received_data(1, 500).unwrap();

    let stats = controller.get_stats();
    assert_eq!(stats.active_streams, 2);
    assert_eq!(stats.total_bytes_sent, 1000);
    assert_eq!(stats.total_bytes_received, 500);
}

#[test]
fn test_initial_window_size_update() {
    let mut controller = FlowController::new(65536, 32768);
    controller.initialize_stream(1).unwrap();

    controller.update_initial_window_sizes(None, Some(16384)).unwrap();

    assert_eq!(controller.initial_stream_window(), 16384);
    assert_eq!(controller.send_window(1), 16384);
}

// Own tests.

#[test]
fn reserve_then_release_restores_windows() {
    let mut controller = FlowController::new(65536, 32768);
    controller.initialize_stream(5).unwrap();
    controller.reserve_send_window(5, 1234).unwrap();
    controller.update_send_window(5, 1234).unwrap();
    controller.update_send_window(0, 1234).unwrap();
    assert_eq!(controller.send_window(5), 32768);
    assert_eq!(controller.send_window(0), 65536);
}

#[test]
fn blocked_reservation_changes_nothing() {
    let mut controller = FlowController::new(1000, 500);
    controller.initialize_stream(1).unwrap();
    let events = controller.reserve_send_window(1, 2000).unwrap();
    assert_eq!(
        events,
        vec![FlowControlEvent::FlowControlBlocked { stream_id: 0, available_window: 1000, requested_bytes: 2000 }]
    );
    assert_eq!(controller.send_window(1), 500);
    assert_eq!(controller.send_window(0), 1000);
    assert_eq!(controller.get_stats().total_bytes_sent, 0);
}

#[test]
fn exhausting_a_window_is_reported() {
    let mut controller = FlowController::new(1000, 1000);
    controller.initialize_stream(1).unwrap();
    let events = controller.reserve_send_window(1, 1000).unwrap();
    assert_eq!(
        events,
        vec![
            FlowControlEvent::WindowExhausted { stream_id: 1 },
            FlowControlEvent::WindowExhausted { stream_id: 0 },
        ]
    );
}

#[test]
fn stream_zero_cannot_be_initialized() {
    let mut controller = FlowController::new(1000, 1000);
    match controller.initialize_stream(0) {
        Err(H3Error::Stream(StreamError::InvalidState { expected, actual })) => {
            assert_eq!(expected, "non-zero stream ID");
            assert_eq!(actual, "stream ID 0");
        }
        _ => panic!("Expected InvalidState"),
    }
}

#[test]
fn receiving_beyond_the_connection_window_is_refused() {
    let mut controller = FlowController::new(100, 100);
    controller.initialize_stream(1).unwrap();
    match controller.process_received_data(1, 200) {
        Err(H3Error::Stream(StreamError::InvalidState { expected, actual })) => {
            assert_eq!(expected, "sufficient connection receive window");
            assert_eq!(actual, "window: 100, data: 200");
        }
        _ => panic!("Expected InvalidState"),
    }
    assert_eq!(controller.recv_window(0), 100);
}

#[test]
fn window_overflow_error_text() {
    let mut controller = FlowController::new(65536, 32768);
    controller.initialize_stream(1).unwrap();
    match controller.update_send_window(1, MAX_WINDOW_SIZE) {
        Err(H3Error::Stream(StreamError::InvalidState { expected, actual })) => {
            assert_eq!(expected, "valid window size");
            assert_eq!(actual, format!("window overflow: 32768 + {}", MAX_WINDOW_SIZE));
        }
        _ => panic!("Expected InvalidState"),
    }
}

#[test]
fn initial_window_size_out_of_range_is_refused() {
    let mut controller = FlowController::new(65536, 32768);
    assert!(controller.update_initial_window_sizes(Some(10), None).is_err());
    assert_eq!(controller.initial_connection_window(), 65536);
}

#[test]
fn window_update_threshold_for_odd_sizes() {
    // The threshold is half the initial window, rounded down:
    // for 3 the threshold is 1, so a window of 1 needs an update and 2 does not.
    let mut controller = FlowController::new(3, 3);
    controller.initialize_stream(1).unwrap();
    let events = controller.process_received_data(1, 1).unwrap();
    assert!(events.is_empty());
    let events = controller.process_received_data(1, 1).unwrap();
    assert_eq!(
        events,
        vec![
            FlowControlEvent::WindowUpdateNeeded { stream_id: 1, increment: 2 },
            FlowControlEvent::WindowUpdateNeeded { stream_id: 0, increment: 2 },
        ]
    );
}

#[test]
fn removing_a_stream_and_adding_updates_count() {
    let mut c = FlowController::new(65536, 65536);
    c.initialize_stream(1).unwrap();
    c.initialize_stream(5).unwrap();
    assert_eq!(c.get_stats().active_streams, 2);
    c.remove_stream(1);
    assert_eq!(c.get_stats().active_streams, 1);
    assert_eq!(c.send_window(1), 0);
    assert_eq!(c.recv_window(1), 0);
    assert!(!c.can_send(1, 0));
    assert_eq!(c.send_window(5), 65536);
    c.remove_stream(9);
    assert_eq!(c.get_stats().active_streams, 1);
    c.add_pending_update(5, 10);
    c.add_pending_update(5, 10);
    assert_eq!(c.get_stats().pending_updates, 2);
    assert_eq!(c.pending_window_updates().len(), 2);
}
