use wasm_h3::error::{ConnectionError, H3Error};
use wasm_h3::protocol::stream::StreamType;
use wasm_h3::transport::connection::{ConnectionConfig, IpAddress, PeerAddress, QuicConnection};
use wasm_h3::transport::endpoint::{Endpoint, EndpointConfig, QuicListener};

fn local(port: u16) -> PeerAddress {
    PeerAddress { ip: IpAddress::V4([127, 0, 0, 1]), port }
}

#[test]
fn test_connection_creation() {
    let config = ConnectionConfig::default();
    let result = QuicConnection::connect(local(8080), config);
    assert!(result.is_ok());
}

#[test]
fn test_endpoint_creation() {
    let config = EndpointConfig::default();
    let result = Endpoint::bind(local(0), config);
    assert!(result.is_ok());
}

#[test]
fn test_listener_creation() {
    let config = EndpointConfig::default();
    let result = QuicListener::bind(local(0), config);
    assert!(result.is_ok());
}

fn invalid_state_message(e: H3Error) -> String {
    match e {
        H3Error::Connection(ConnectionError::InvalidState(m)) => m,
        other => panic!("unexpected error: {:?}", other),
    }
}

#[test]
fn connection_operations_follow_its_state() {
    let mut c = QuicConnection::connect(local(443), ConnectionConfig::default()).unwrap();
    assert!(c.is_connected());
    assert_eq!(c.remote_addr(), local(443));
    let s = c.accept_stream().unwrap();
    assert_eq!(s.id, 0);
    assert!(s.is_bidirectional);
    assert!(!c.open_stream(StreamType::ClientUnidirectional).unwrap().is_bidirectional);
    assert!(c.open_stream(StreamType::ServerBidirectional).unwrap().is_bidirectional);
    assert!(c.send_datagram(b"x").is_ok());
    assert_eq!(c.recv_datagram().unwrap(), None);
    assert_eq!(c.stats().bytes_sent, 0);

    c.close().unwrap();
    assert!(!c.is_connected());
    assert_eq!(invalid_state_message(c.accept_stream().unwrap_err()), "Cannot accept stream in state: Closed");
    assert_eq!(
        invalid_state_message(c.open_stream(StreamType::ClientBidirectional).unwrap_err()),
        "Cannot open stream in state: Closed"
    );
    assert_eq!(invalid_state_message(c.send_datagram(b"x").unwrap_err()), "Cannot send datagram in state: Closed");
    assert_eq!(invalid_state_message(c.recv_datagram().unwrap_err()), "Cannot receive datagram in state: Closed");
}

#[test]
fn endpoint_and_listener_connect_with_their_configuration() {
    let mut config = EndpointConfig::default();
    config.connection_config.max_streams = 7;
    let e = Endpoint::bind(local(4433), config).unwrap();
    assert_eq!(e.local_addr(), local(4433));
    let c = e.connect(local(9000)).unwrap();
    assert_eq!(c.remote_addr(), local(9000));
    let mut l = QuicListener::bind(local(4434), config).unwrap();
    assert_eq!(l.local_addr(), local(4434));
    let accepted = l.accept().unwrap();
    assert_eq!(accepted.remote_addr(), local(0));
    assert!(accepted.is_connected());
    assert!(l.close().is_ok());
}

#[test]
fn quic_stream_operations() {
    let mut s = wasm_h3::transport::QuicStream::new(8, false);
    assert!(s.send(b"abc").is_ok());
    assert_eq!(s.recv().unwrap(), None);
    assert!(s.close().is_ok());
    assert_eq!(s.id, 8);
}
