//! QUIC transport layer: connections, endpoints, packets, acknowledgments and loss detection.

pub mod wire;
pub mod connection;
pub mod endpoint;
pub mod packet;

pub use connection::{ConnectionConfig, ConnectionId, ConnectionStats, QuicConnection, QuicStream, PeerAddress, IpAddress};
pub use endpoint::{Endpoint, EndpointConfig, QuicListener};
pub use packet::{PacketType, PacketHeader, Packet, AckFrame, AckTracker, LossDetector};
