//! QUIC endpoints and listeners.

use vstd::prelude::*;
use crate::error::H3Result;
use crate::time::TimeSpan;
use crate::transport::connection::{ConnectionConfig, ConnectionState, PeerAddress, IpAddress, QuicConnection};

verus! {

/// Configuration for QUIC endpoints.
#[derive(Debug, Clone, Copy, PartialEq, Eq, Structural)]
pub struct EndpointConfig {
    /// Connection configuration
    pub connection_config: ConnectionConfig,
    /// Maximum number of concurrent connections
    pub max_connections: Option<u64>,
}

impl Default for EndpointConfig {
    fn default() -> (c: Self)
        ensures
            c.connection_config == (ConnectionConfig {
                timeout: TimeSpan { nanos: 10_000_000_000 },
                idle_timeout: TimeSpan { nanos: 30_000_000_000 },
                keep_alive: Some(TimeSpan { nanos: 15_000_000_000 }),
                max_streams: 100,
            }),
            c.max_connections == Some(1000u64),
    {
        EndpointConfig { connection_config: ConnectionConfig::default(), max_connections: Some(1000) }
    }
}

/// QUIC endpoint for creating connections.
#[derive(Debug)]
pub struct Endpoint {
    local_addr: PeerAddress,
    config: EndpointConfig,
}

impl Endpoint {
    /// Create a new QUIC endpoint on a local address.
    pub fn bind(addr: PeerAddress, config: EndpointConfig) -> (r: H3Result<Self>)
        ensures
            r matches Ok(e) && e.local() == addr && e.configuration() == config,
    {
        Ok(Endpoint { local_addr: addr, config })
    }

    /// The endpoint's local address.
    pub closed spec fn local(&self) -> PeerAddress {
        self.local_addr
    }

    /// The endpoint's configuration.
    pub closed spec fn configuration(&self) -> EndpointConfig {
        self.config
    }

    /// Connect to a remote endpoint with the endpoint's connection configuration.
    pub fn connect(&self, addr: PeerAddress) -> (r: H3Result<QuicConnection>)
        ensures
            r matches Ok(c) && c.state() == ConnectionState::Connected && c.remote() == addr
                && c.configuration() == self.configuration().connection_config,
    {
        QuicConnection::connect(addr, self.config.connection_config)
    }

    /// Get the local address.
    pub fn local_addr(&self) -> (a: PeerAddress)
        ensures
            a == self.local(),
    {
        self.local_addr
    }
}

/// The address an accepted connection is given: 127.0.0.1, port 0.
pub open spec fn unspecified_peer() -> PeerAddress {
    PeerAddress { ip: IpAddress::V4([127u8, 0u8, 0u8, 1u8]), port: 0 }
}

/// QUIC listener for accepting incoming connections.
#[derive(Debug)]
pub struct QuicListener {
    endpoint: Endpoint,
}

impl QuicListener {
    /// Create a new QUIC listener on a local address.
    pub fn bind(addr: PeerAddress, config: EndpointConfig) -> (r: H3Result<Self>)
        ensures
            r matches Ok(l) && l.local() == addr && l.configuration() == config,
    {
        let endpoint = Endpoint::bind(addr, config)?;
        Ok(QuicListener { endpoint })
    }

    /// The listener's local address.
    pub closed spec fn local(&self) -> PeerAddress {
        self.endpoint.local()
    }

    /// The listener's configuration.
    pub closed spec fn configuration(&self) -> EndpointConfig {
        self.endpoint.configuration()
    }

    /// Accept an incoming connection: a connected connection to 127.0.0.1, port 0, with the
    /// listener's connection configuration.
    pub fn accept(&mut self) -> (r: H3Result<QuicConnection>)
        ensures
            final(self).local() == old(self).local(),
            final(self).configuration() == old(self).configuration(),
            r matches Ok(c) && c.state() == ConnectionState::Connected && c.remote()
                == unspecified_peer() && c.configuration()
                == old(self).configuration().connection_config,
    {
        let peer = PeerAddress { ip: IpAddress::V4([127u8, 0u8, 0u8, 1u8]), port: 0 };
        QuicConnection::connect(peer, self.endpoint.config.connection_config)
    }

    /// Get the local address.
    pub fn local_addr(&self) -> (a: PeerAddress)
        ensures
            a == self.local(),
    {
        self.endpoint.local_addr()
    }

    /// Close the listener.
    pub fn close(&mut self) -> (r: H3Result<()>)
        ensures
            r is Ok,
            final(self).local() == old(self).local(),
            final(self).configuration() == old(self).configuration(),
    {
        Ok(())
    }
}

} // verus!
