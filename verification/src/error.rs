//! Error types and their classification.

use vstd::prelude::*;

verus! {

/// An I/O error value carried through the library's errors (`std::io::Error`).
#[verifier::external_type_specification]
#[verifier::external_body]
pub struct ExIoError(std::io::Error);

/// Result type alias for H3 operations.
pub type H3Result<T> = Result<T, H3Error>;

/// Network-related errors.
#[derive(Debug)]
pub enum NetworkError {
    /// I/O error
    IoError(std::io::Error),
    /// Address resolution failed
    AddressResolutionFailed,
    /// Connection refused
    ConnectionRefused,
    /// Connection reset
    ConnectionReset,
    /// Connection timed out
    ConnectionTimeout,
    /// Network unreachable
    NetworkUnreachable,
    /// Operation not supported
    OperationNotSupported(String),
    /// Permission denied
    PermissionDenied,
    /// Address already in use
    AddressInUse,
    /// Other network error
    Other(String),
}

/// Main error type for H3 operations.
#[derive(Debug)]
pub enum H3Error {
    /// Connection-related errors
    Connection(ConnectionError),
    /// Protocol-level errors
    Protocol(ProtocolError),
    /// Stream-related errors
    Stream(StreamError),
    /// Frame parsing errors
    Parse(ParseError),
    /// TLS/Crypto errors
    Tls(TlsError),
    /// Network-related errors
    Network(NetworkError),
    /// QUIC transport (packet and transport frame) errors
    Transport(TransportError),
    /// Timeout errors
    Timeout,
    /// Configuration errors
    Config(String),
    /// I/O errors
    Io(std::io::Error),
    /// Generic errors
    Internal(String),
}

/// Connection-specific errors.
#[derive(Debug)]
pub enum ConnectionError {
    EstablishmentFailed,
    UnexpectedClose,
    HandshakeFailed(String),
    MigrationFailed,
    IdleTimeout,
    InvalidState(String),
}

/// Protocol-level errors.
#[derive(Debug)]
pub enum ProtocolError {
    InvalidFrameType(u64),
    ProtocolViolation(String),
    UnsupportedVersion,
    InvalidAlpn,
    FlowControlViolation,
    Settings(String),
}

/// Stream-related errors.
#[derive(Debug)]
pub enum StreamError {
    NotFound(u64),
    AlreadyClosed(u64),
    InvalidState { expected: String, actual: String },
    LimitExceeded,
    Reset(u64),
    Blocked,
}

/// Frame parsing errors.
#[derive(Debug)]
pub enum ParseError {
    Incomplete,
    InvalidFormat(String),
    FrameTooLarge { size: usize, max: usize },
    HeaderCompression,
    InvalidVarint,
    BufferOverflow,
}

/// QUIC transport errors (malformed packets and transport frames).
#[derive(Debug)]
pub enum TransportError {
    InvalidPacket(String),
    InvalidFrame(String),
}

/// TLS and cryptographic errors.
#[derive(Debug)]
pub enum TlsError {
    CertificateValidation(String),
    HandshakeFailed(String),
    EncryptionFailed,
    DecryptionFailed,
    KeyDerivationFailed,
    InvalidCertificate,
}

/// Body-related errors.
#[derive(Debug)]
pub enum BodyError {
    Read(String),
    Write(String),
    TooLarge,
    UnexpectedEnd,
}

/// The errors after which the operation may be retried.
pub open spec fn spec_is_recoverable(e: H3Error) -> bool {
    ||| e matches H3Error::Connection(ConnectionError::IdleTimeout)
    ||| e matches H3Error::Stream(StreamError::Blocked)
    ||| e is Timeout
    ||| e is Io
}

/// The errors after which the connection must be closed.
pub open spec fn spec_should_close_connection(e: H3Error) -> bool {
    e is Connection || e is Protocol || e is Tls
}

impl H3Error {
    /// Create a new configuration error.
    pub fn config(msg: &str) -> (e: Self)
        ensures
            e matches H3Error::Config(s) && s@ == msg@,
    {
        H3Error::Config(msg.to_owned())
    }

    /// Create a new internal error.
    pub fn internal(msg: &str) -> (e: Self)
        ensures
            e matches H3Error::Internal(s) && s@ == msg@,
    {
        H3Error::Internal(msg.to_owned())
    }

    /// Check if this error is recoverable.
    pub fn is_recoverable(&self) -> (b: bool)
        ensures
            b == spec_is_recoverable(*self),
    {
        match self {
            H3Error::Connection(ConnectionError::IdleTimeout) => true,
            H3Error::Stream(StreamError::Blocked) => true,
            H3Error::Timeout => true,
            H3Error::Io(_) => true,
            _ => false,
        }
    }

    /// Check if this error should trigger a connection close.
    pub fn should_close_connection(&self) -> (b: bool)
        ensures
            b == spec_should_close_connection(*self),
    {
        match self {
            H3Error::Connection(_) => true,
            H3Error::Protocol(_) => true,
            H3Error::Tls(_) => true,
            _ => false,
        }
    }
}

} // verus!
