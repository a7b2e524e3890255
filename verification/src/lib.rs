//! HTTP/3 over QUIC: frame codec, stream state machines, flow control, requests and
//! responses, packet codec and reliability bookkeeping, with their contracts proved.

pub mod text;
pub mod error;
pub mod time;
pub mod protocol;
pub mod config;
pub mod transport;
pub mod crypto;

pub use error::{H3Error, H3Result};
pub use config::{ClientConfig, ServerConfig};
pub use protocol::{H3Request, H3Response, H3Frame, Body, Method, Uri};
