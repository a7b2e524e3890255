//! Configuration types for H3 client and server.

use vstd::prelude::*;
use crate::time::TimeSpan;
use crate::protocol::stream::StreamPriority;

pub use crate::protocol::frame::Priority;

verus! {

/// TLS configuration for client connections.
#[derive(Debug, Clone)]
pub struct TlsClientConfig {
    /// Verify server certificates
    pub verify_certificates: bool,
    /// Custom certificate authorities
    pub custom_ca_certs: Vec<Certificate>,
    /// Client certificate for mutual TLS
    pub client_cert: Option<Certificate>,
    /// Client private key for mutual TLS
    pub client_key: Option<PrivateKey>,
    /// Server name for SNI
    pub server_name: Option<String>,
}

impl Default for TlsClientConfig {
    fn default() -> (c: Self)
        ensures
            c.verify_certificates,
            c.custom_ca_certs@.len() == 0,
            c.client_cert is None,
            c.client_key is None,
            c.server_name is None,
    {
        TlsClientConfig {
            verify_certificates: true,
            custom_ca_certs: Vec::new(),
            client_cert: None,
            client_key: None,
            server_name: None,
        }
    }
}

/// TLS configuration for server.
#[derive(Debug, Clone)]
pub struct TlsServerConfig {
    /// Require client certificates
    pub require_client_certs: bool,
    /// Custom certificate authorities for client verification
    pub client_ca_certs: Vec<Certificate>,
    /// Supported cipher suites
    pub cipher_suites: Vec<CipherSuite>,
    /// Supported signature algorithms
    pub signature_algorithms: Vec<SignatureAlgorithm>,
}

impl Default for TlsServerConfig {
    fn default() -> (c: Self)
        ensures
            !c.require_client_certs,
            c.client_ca_certs@.len() == 0,
            c.cipher_suites@.len() == 0,
            c.signature_algorithms@.len() == 0,
    {
        TlsServerConfig {
            require_client_certs: false,
            client_ca_certs: Vec::new(),
            cipher_suites: Vec::new(),
            signature_algorithms: Vec::new(),
        }
    }
}

/// Configuration for H3 client connections.
#[derive(Debug, Clone)]
pub struct ClientConfig {
    /// Maximum number of concurrent streams per connection
    pub max_concurrent_streams: u64,
    /// Initial flow control window size
    pub initial_window_size: u32,
    /// Connection establishment timeout
    pub connection_timeout: TimeSpan,
    /// Connection idle timeout
    pub idle_timeout: TimeSpan,
    /// TLS configuration
    pub tls_config: TlsClientConfig,
    /// ALPN protocols to negotiate
    pub alpn_protocols: Vec<String>,
    /// Enable connection migration
    pub enable_migration: bool,
    /// Keep-alive interval
    pub keep_alive_interval: Option<TimeSpan>,
    /// Maximum frame size
    pub max_frame_size: u32,
}

/// The settings of the default client configuration (the TLS part aside).
pub open spec fn is_default_client_config(c: ClientConfig) -> bool {
    &&& c.max_concurrent_streams == 100
    &&& c.initial_window_size == 65536
    &&& c.connection_timeout.nanos == 10_000_000_000
    &&& c.idle_timeout.nanos == 30_000_000_000
    &&& c.alpn_protocols@.len() == 1 && c.alpn_protocols@[0]@ == "h3"@
    &&& c.enable_migration
    &&& c.keep_alive_interval == Some(TimeSpan { nanos: 15_000_000_000 })
    &&& c.max_frame_size == 16384
    &&& c.tls_config.verify_certificates
    &&& c.tls_config.custom_ca_certs@.len() == 0
    &&& c.tls_config.client_cert is None
    &&& c.tls_config.client_key is None
    &&& c.tls_config.server_name is None
}

impl Default for ClientConfig {
    fn default() -> (c: Self)
        ensures
            is_default_client_config(c),
    {
        let mut alpn_protocols: Vec<String> = Vec::new();
        alpn_protocols.push("h3".to_owned());
        ClientConfig {
            max_concurrent_streams: 100,
            initial_window_size: 65536,
            connection_timeout: TimeSpan::from_secs(10),
            idle_timeout: TimeSpan::from_secs(30),
            tls_config: TlsClientConfig::default(),
            alpn_protocols,
            enable_migration: true,
            keep_alive_interval: Some(TimeSpan::from_secs(15)),
            max_frame_size: 16384,
        }
    }
}

impl ClientConfig {
    /// Create a new client configuration builder, starting from the default configuration.
    pub fn builder() -> (b: ClientConfigBuilder)
        ensures
            is_default_client_config(b@),
    {
        ClientConfigBuilder { config: ClientConfig::default() }
    }
}

/// Configuration for H3 server.
#[derive(Debug, Clone)]
pub struct ServerConfig {
    /// Maximum number of concurrent streams per connection
    pub max_concurrent_streams: u64,
    /// Initial flow control window size
    pub initial_window_size: u32,
    /// Maximum frame size
    pub max_frame_size: u32,
    /// Connection timeout
    pub connection_timeout: TimeSpan,
    /// TLS configuration
    pub tls_config: TlsServerConfig,
    /// Certificate chain
    pub certificate_chain: Vec<Certificate>,
    /// Private key
    pub private_key: PrivateKey,
    /// Enable server push
    pub enable_push: bool,
    /// Maximum number of concurrent connections
    pub max_connections: Option<u64>,
    /// Connection idle timeout
    pub idle_timeout: TimeSpan,
}

/// The settings of the default server configuration.
pub open spec fn is_default_server_config(c: ServerConfig) -> bool {
    &&& c.max_concurrent_streams == 100
    &&& c.initial_window_size == 65536
    &&& c.max_frame_size == 16384
    &&& c.connection_timeout.nanos == 10_000_000_000
    &&& !c.tls_config.require_client_certs
    &&& c.tls_config.client_ca_certs@.len() == 0
    &&& c.tls_config.cipher_suites@.len() == 0
    &&& c.tls_config.signature_algorithms@.len() == 0
    &&& c.certificate_chain@.len() == 0
    &&& c.private_key.der@.len() == 0
    &&& !c.enable_push
    &&& c.max_connections == Some(1000u64)
    &&& c.idle_timeout.nanos == 60_000_000_000
}

impl Default for ServerConfig {
    fn default() -> (c: Self)
        ensures
            is_default_server_config(c),
    {
        ServerConfig {
            max_concurrent_streams: 100,
            initial_window_size: 65536,
            max_frame_size: 16384,
            connection_timeout: TimeSpan::from_secs(10),
            tls_config: TlsServerConfig::default(),
            certificate_chain: Vec::new(),
            private_key: PrivateKey::default(),
            enable_push: false,
            max_connections: Some(1000),
            idle_timeout: TimeSpan::from_secs(60),
        }
    }
}

impl ServerConfig {
    /// Create a new server configuration builder, starting from the default configuration.
    pub fn builder() -> (b: ServerConfigBuilder)
        ensures
            is_default_server_config(b@),
    {
        ServerConfigBuilder { config: ServerConfig::default() }
    }
}

/// Stream configuration.
#[derive(Debug, Clone, Copy, PartialEq, Eq, Structural)]
pub struct StreamConfig {
    /// Initial flow control window size
    pub initial_window_size: u32,
    /// Maximum frame size for this stream
    pub max_frame_size: u32,
    /// Stream priority
    pub priority: StreamPriority,
    /// Enable flow control
    pub enable_flow_control: bool,
}

impl Default for StreamConfig {
    fn default() -> (c: Self)
        ensures
            c == (StreamConfig {
                initial_window_size: 65536,
                max_frame_size: 16384,
                priority: StreamPriority::Normal,
                enable_flow_control: true,
            }),
    {
        StreamConfig {
            initial_window_size: 65536,
            max_frame_size: 16384,
            priority: StreamPriority::Normal,
            enable_flow_control: true,
        }
    }
}

/// Certificate representation.
#[derive(Debug, Clone)]
pub struct Certificate {
    /// DER-encoded certificate data
    pub der: Vec<u8>,
}

impl Default for Certificate {
    fn default() -> (c: Self)
        ensures
            c.der@.len() == 0,
    {
        Certificate { der: Vec::new() }
    }
}

/// Private key representation.
#[derive(Debug, Clone)]
pub struct PrivateKey {
    /// DER-encoded private key data
    pub der: Vec<u8>,
}

impl Default for PrivateKey {
    fn default() -> (k: Self)
        ensures
            k.der@.len() == 0,
    {
        PrivateKey { der: Vec::new() }
    }
}

/// TLS cipher suite.
#[derive(Debug, Clone, Copy, PartialEq, Eq, Structural)]
pub enum CipherSuite {
    Aes128GcmSha256,
    Aes256GcmSha384,
    ChaCha20Poly1305Sha256,
}

/// TLS signature algorithm.
#[derive(Debug, Clone, Copy, PartialEq, Eq, Structural)]
pub enum SignatureAlgorithm {
    RsaPkcs1Sha256,
    RsaPkcs1Sha384,
    RsaPkcs1Sha512,
    EcdsaSecp256r1Sha256,
    EcdsaSecp384r1Sha384,
    RsaPssRsaeSha256,
    RsaPssRsaeSha384,
    RsaPssRsaeSha512,
}

/// Builder for client configuration.
#[derive(Debug)]
pub struct ClientConfigBuilder {
    config: ClientConfig,
}

impl View for ClientConfigBuilder {
    type V = ClientConfig;

    closed spec fn view(&self) -> ClientConfig {
        self.config
    }
}

impl Default for ClientConfigBuilder {
    fn default() -> (b: Self)
        ensures
            is_default_client_config(b@),
    {
        ClientConfigBuilder { config: ClientConfig::default() }
    }
}

impl ClientConfigBuilder {
    /// Set maximum concurrent streams
    pub fn max_concurrent_streams(self, max: u64) -> (b: Self)
        ensures
            b@ == (ClientConfig { max_concurrent_streams: max, ..self@ }),
    {
        let mut s = self;
        s.config.max_concurrent_streams = max;
        s
    }

    /// Set initial window size
    pub fn initial_window_size(self, size: u32) -> (b: Self)
        ensures
            b@ == (ClientConfig { initial_window_size: size, ..self@ }),
    {
        let mut s = self;
        s.config.initial_window_size = size;
        s
    }

    /// Set connection timeout
    pub fn connection_timeout(self, timeout: TimeSpan) -> (b: Self)
        ensures
            b@ == (ClientConfig { connection_timeout: timeout, ..self@ }),
    {
        let mut s = self;
        s.config.connection_timeout = timeout;
        s
    }

    /// Set idle timeout
    pub fn idle_timeout(self, timeout: TimeSpan) -> (b: Self)
        ensures
            b@ == (ClientConfig { idle_timeout: timeout, ..self@ }),
    {
        let mut s = self;
        s.config.idle_timeout = timeout;
        s
    }

    /// Enable or disable connection migration
    pub fn enable_migration(self, enable: bool) -> (b: Self)
        ensures
            b@ == (ClientConfig { enable_migration: enable, ..self@ }),
    {
        let mut s = self;
        s.config.enable_migration = enable;
        s
    }

    /// Set keep-alive interval
    pub fn keep_alive_interval(self, interval: Option<TimeSpan>) -> (b: Self)
        ensures
            b@ == (ClientConfig { keep_alive_interval: interval, ..self@ }),
    {
        let mut s = self;
        s.config.keep_alive_interval = interval;
        s
    }

    /// Build the configuration
    pub fn build(self) -> (c: ClientConfig)
        ensures
            c == self@,
    {
        self.config
    }
}

/// Builder for server configuration.
#[derive(Debug)]
pub struct ServerConfigBuilder {
    config: ServerConfig,
}

impl View for ServerConfigBuilder {
    type V = ServerConfig;

    closed spec fn view(&self) -> ServerConfig {
        self.config
    }
}

impl Default for ServerConfigBuilder {
    fn default() -> (b: Self)
        ensures
            is_default_server_config(b@),
    {
        ServerConfigBuilder { config: ServerConfig::default() }
    }
}

impl ServerConfigBuilder {
    /// Set maximum concurrent streams
    pub fn max_concurrent_streams(self, max: u64) -> (b: Self)
        ensures
            b@ == (ServerConfig { max_concurrent_streams: max, ..self@ }),
    {
        let mut s = self;
        s.config.max_concurrent_streams = max;
        s
    }

    /// Set initial window size
    pub fn initial_window_size(self, size: u32) -> (b: Self)
        ensures
            b@ == (ServerConfig { initial_window_size: size, ..self@ }),
    {
        let mut s = self;
        s.config.initial_window_size = size;
        s
    }

    /// Set maximum frame size
    pub fn max_frame_size(self, size: u32) -> (b: Self)
        ensures
            b@ == (ServerConfig { max_frame_size: size, ..self@ }),
    {
        let mut s = self;
        s.config.max_frame_size = size;
        s
    }

    /// Set certificate chain
    pub fn certificate_chain(self, chain: Vec<Certificate>) -> (b: Self)
        ensures
            b@ == (ServerConfig { certificate_chain: chain, ..self@ }),
    {
        let mut s = self;
        s.config.certificate_chain = chain;
        s
    }

    /// Set private key
    pub fn private_key(self, key: PrivateKey) -> (b: Self)
        ensures
            b@ == (ServerConfig { private_key: key, ..self@ }),
    {
        let mut s = self;
        s.config.private_key = key;
        s
    }

    /// Enable or disable server push
    pub fn enable_push(self, enable: bool) -> (b: Self)
        ensures
            b@ == (ServerConfig { enable_push: enable, ..self@ }),
    {
        let mut s = self;
        s.config.enable_push = enable;
        s
    }

    /// Set maximum connections
    pub fn max_connections(self, max: Option<u64>) -> (b: Self)
        ensures
            b@ == (ServerConfig { max_connections: max, ..self@ }),
    {
        let mut s = self;
        s.config.max_connections = max;
        s
    }

    /// Build the configuration
    pub fn build(self) -> (c: ServerConfig)
        ensures
            c == self@,
    {
        self.config
    }
}

} // verus!
