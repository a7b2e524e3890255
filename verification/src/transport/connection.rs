//! QUIC connection identifiers, configuration and state.

use vstd::prelude::*;
use crate::error::{ConnectionError, H3Error, H3Result};
use crate::text::push_str;
use crate::time::TimeSpan;
use crate::protocol::stream::StreamType;

verus! {

/// A 16-byte QUIC connection identifier.
#[derive(Debug, Clone, Copy, PartialEq, Eq, Hash)]
pub struct ConnectionId(pub [u8; 16]);

/// Configuration for QUIC connections.
#[derive(Debug, Clone, Copy, PartialEq, Eq, Structural)]
pub struct ConnectionConfig {
    /// Connection timeout
    pub timeout: TimeSpan,
    /// Idle timeout
    pub idle_timeout: TimeSpan,
    /// Keep-alive interval
    pub keep_alive: Option<TimeSpan>,
    /// Maximum concurrent streams
    pub max_streams: u64,
}

impl Default for ConnectionConfig {
    fn default() -> (c: Self)
        ensures
            c == (ConnectionConfig {
                timeout: TimeSpan { nanos: 10_000_000_000 },
                idle_timeout: TimeSpan { nanos: 30_000_000_000 },
                keep_alive: Some(TimeSpan { nanos: 15_000_000_000 }),
                max_streams: 100,
            }),
    {
        ConnectionConfig {
            timeout: TimeSpan::from_secs(10),
            idle_timeout: TimeSpan::from_secs(30),
            keep_alive: Some(TimeSpan::from_secs(15)),
            max_streams: 100,
        }
    }
}

/// Connection state tracking.
#[derive(Debug, Clone, Copy, PartialEq, Eq, Structural)]
pub enum ConnectionState {
    Connecting,
    Connected,
    Closing,
    Closed,
}

/// The name of a connection state as error messages show it.
pub open spec fn connection_state_text(s: ConnectionState) -> Seq<char> {
    match s {
        ConnectionState::Connecting => "Connecting"@,
        ConnectionState::Connected => "Connected"@,
        ConnectionState::Closing => "Closing"@,
        ConnectionState::Closed => "Closed"@,
    }
}

/// Allow an operation only on a connected connection: otherwise the error names the operation
/// and the state, as in `"Cannot open stream in state: Closed"`.
pub fn require_connected(state: ConnectionState, operation: &str) -> (res: H3Result<()>)
    ensures
        state == ConnectionState::Connected ==> res is Ok,
        state != ConnectionState::Connected ==> (res matches Err(
            H3Error::Connection(ConnectionError::InvalidState(m)),
        ) && m@ == "Cannot "@ + operation@ + " in state: "@ + connection_state_text(state)),
{
    if state == ConnectionState::Connected {
        return Ok(());
    }
    let mut m = "Cannot ".to_owned();
    push_str(&mut m, operation);
    push_str(&mut m, " in state: ");
    let name = match state {
        ConnectionState::Connecting => "Connecting",
        ConnectionState::Connected => "Connected",
        ConnectionState::Closing => "Closing",
        ConnectionState::Closed => "Closed",
    };
    push_str(&mut m, name);
    Err(H3Error::Connection(ConnectionError::InvalidState(m)))
}

/// Connection statistics.
#[derive(Debug, Clone, Copy, PartialEq, Eq, Structural)]
pub struct ConnectionStats {
    /// Total bytes sent
    pub bytes_sent: u64,
    /// Total bytes received
    pub bytes_received: u64,
    /// Total packets sent
    pub packets_sent: u64,
    /// Total packets received
    pub packets_received: u64,
    /// Round-trip time
    pub rtt: TimeSpan,
}

/// QUIC stream representation.
#[derive(Debug)]
pub struct QuicStream {
    /// Stream identifier
    pub id: u64,
    /// Whether the stream is bidirectional
    pub is_bidirectional: bool,
}

impl QuicStream {
    /// Create a new QUIC stream.
    pub fn new(id: u64, is_bidirectional: bool) -> (s: Self)
        ensures
            s.id == id,
            s.is_bidirectional == is_bidirectional,
    {
        QuicStream { id, is_bidirectional }
    }

    /// Send data on this stream: the bytes are accepted (no peer receives them yet).
    pub fn send(&mut self, data: &[u8]) -> (r: H3Result<()>)
        ensures
            r is Ok,
            final(self).id == old(self).id,
            final(self).is_bidirectional == old(self).is_bidirectional,
    {
        Ok(())
    }

    /// Receive data from this stream: nothing arrives.
    pub fn recv(&mut self) -> (r: H3Result<Option<Vec<u8>>>)
        ensures
            r matches Ok(d) && d is None,
            final(self).id == old(self).id,
            final(self).is_bidirectional == old(self).is_bidirectional,
    {
        Ok(None)
    }

    /// Close the stream.
    pub fn close(&mut self) -> (r: H3Result<()>)
        ensures
            r is Ok,
            final(self).id == old(self).id,
            final(self).is_bidirectional == old(self).is_bidirectional,
    {
        Ok(())
    }
}

/// An IP address: four bytes for IPv4, sixteen for IPv6.
#[derive(Debug, Clone, Copy, PartialEq, Eq, Hash)]
pub enum IpAddress {
    V4([u8; 4]),
    V6([u8; 16]),
}

/// A socket address: an IP address and a port.
#[derive(Debug, Clone, Copy, PartialEq, Eq, Hash)]
pub struct PeerAddress {
    pub ip: IpAddress,
    pub port: u16,
}

/// A QUIC connection for HTTP/3 transport.
#[derive(Debug)]
pub struct QuicConnection {
    remote_addr: PeerAddress,
    config: ConnectionConfig,
    state: ConnectionState,
}

/// The error of an operation refused in `state`.
pub open spec fn refused_in(res: H3Result<QuicStream>, operation: Seq<char>, state: ConnectionState) -> bool {
    res matches Err(H3Error::Connection(ConnectionError::InvalidState(m)))
        && m@ == "Cannot "@ + operation + " in state: "@ + connection_state_text(state)
}

impl QuicConnection {
    /// Establish a new QUIC connection; it starts connected.
    pub fn connect(addr: PeerAddress, config: ConnectionConfig) -> (r: H3Result<Self>)
        ensures
            r matches Ok(c) && c.state() == ConnectionState::Connected && c.remote() == addr
                && c.configuration() == config,
    {
        Ok(QuicConnection { remote_addr: addr, config, state: ConnectionState::Connected })
    }

    /// The connection's state.
    pub closed spec fn state(&self) -> ConnectionState {
        self.state
    }

    /// The address of the connection's peer.
    pub closed spec fn remote(&self) -> PeerAddress {
        self.remote_addr
    }

    /// The configuration the connection was made with.
    pub closed spec fn configuration(&self) -> ConnectionConfig {
        self.config
    }

    /// Accept an incoming stream (bidirectional, identifier 0); only a connected connection
    /// accepts one.
    pub fn accept_stream(&mut self) -> (r: H3Result<QuicStream>)
        ensures
            final(self).state() == old(self).state(),
            old(self).state() == ConnectionState::Connected ==> (r matches Ok(s) && s.id == 0
                && s.is_bidirectional),
            old(self).state() != ConnectionState::Connected ==> refused_in(
                r,
                "accept stream"@,
                old(self).state(),
            ),
    {
        match require_connected(self.state, "accept stream") {
            Ok(()) => Ok(QuicStream::new(0, true)),
            Err(e) => Err(e),
        }
    }

    /// Open a new outgoing stream of the given type (identifier 0); only a connected
    /// connection opens one.
    pub fn open_stream(&mut self, stream_type: StreamType) -> (r: H3Result<QuicStream>)
        ensures
            final(self).state() == old(self).state(),
            old(self).state() == ConnectionState::Connected ==> (r matches Ok(s) && s.id == 0
                && s.is_bidirectional == (stream_type == StreamType::ClientBidirectional
                || stream_type == StreamType::ServerBidirectional)),
            old(self).state() != ConnectionState::Connected ==> refused_in(
                r,
                "open stream"@,
                old(self).state(),
            ),
    {
        match require_connected(self.state, "open stream") {
            Ok(()) => Ok(QuicStream::new(0, stream_type.is_bidirectional())),
            Err(e) => Err(e),
        }
    }

    /// Send a datagram; only a connected connection sends one.
    pub fn send_datagram(&mut self, data: &[u8]) -> (r: H3Result<()>)
        ensures
            final(self).state() == old(self).state(),
            old(self).state() == ConnectionState::Connected ==> r is Ok,
            old(self).state() != ConnectionState::Connected ==> (r matches Err(
                H3Error::Connection(ConnectionError::InvalidState(m)),
            ) && m@ == "Cannot send datagram in state: "@ + connection_state_text(old(self).state())),
    {
        let r = require_connected(self.state, "send datagram");
        proof {
            reveal_strlit("send datagram");
            reveal_strlit("Cannot ");
            reveal_strlit(" in state: ");
            reveal_strlit("Cannot send datagram in state: ");
            if self.state != ConnectionState::Connected {
                assert("Cannot "@ + "send datagram"@ + " in state: "@ =~= "Cannot send datagram in state: "@);
            }
        }
        r
    }

    /// Receive a datagram: none is waiting; only a connected connection receives.
    pub fn recv_datagram(&mut self) -> (r: H3Result<Option<Vec<u8>>>)
        ensures
            final(self).state() == old(self).state(),
            old(self).state() == ConnectionState::Connected ==> (r matches Ok(d) && d is None),
            old(self).state() != ConnectionState::Connected ==> (r matches Err(
                H3Error::Connection(ConnectionError::InvalidState(m)),
            ) && m@ == "Cannot receive datagram in state: "@ + connection_state_text(old(self).state())),
    {
        match require_connected(self.state, "receive datagram") {
            Ok(()) => Ok(None),
            Err(e) => {
                proof {
                    reveal_strlit("receive datagram");
                    reveal_strlit("Cannot ");
                    reveal_strlit(" in state: ");
                    reveal_strlit("Cannot receive datagram in state: ");
                    assert("Cannot "@ + "receive datagram"@ + " in state: "@
                        =~= "Cannot receive datagram in state: "@);
                }
                Err(e)
            },
        }
    }

    /// Close the connection gracefully; it ends closed.
    pub fn close(&mut self) -> (r: H3Result<()>)
        ensures
            r is Ok,
            final(self).state() == ConnectionState::Closed,
            final(self).remote() == old(self).remote(),
            final(self).configuration() == old(self).configuration(),
    {
        self.state = ConnectionState::Closing;
        self.state = ConnectionState::Closed;
        Ok(())
    }

    /// Get the remote address.
    pub fn remote_addr(&self) -> (a: PeerAddress)
        ensures
            a == self.remote(),
    {
        self.remote_addr
    }

    /// Check if the connection is active.
    pub fn is_connected(&self) -> (b: bool)
        ensures
            b == (self.state() == ConnectionState::Connected),
    {
        self.state == ConnectionState::Connected
    }

    /// Get connection statistics: nothing has been counted.
    pub fn stats(&self) -> (s: ConnectionStats)
        ensures
            s == (ConnectionStats {
                bytes_sent: 0,
                bytes_received: 0,
                packets_sent: 0,
                packets_received: 0,
                rtt: TimeSpan { nanos: 0 },
            }),
    {
        ConnectionStats {
            bytes_sent: 0,
            bytes_received: 0,
            packets_sent: 0,
            packets_received: 0,
            rtt: TimeSpan::zero(),
        }
    }
}

} // verus!
