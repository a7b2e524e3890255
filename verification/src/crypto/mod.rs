//! Cryptographic operations for HTTP/3: TLS configuration and sessions, key derivation,
//! payload encryption and packet protection.

pub mod tls;
pub mod keys;
pub mod protection;

pub use tls::TlsConfig;
pub use keys::{KeySet, KeyPhase, EncryptionLevel, KeyDerivation};
pub use protection::PacketProtection;
