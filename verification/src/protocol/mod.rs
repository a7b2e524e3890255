//! HTTP/3 protocol: frames, streams, flow control, requests and responses.

pub mod varint;
pub mod maps;
pub mod frame;
pub mod flow_control;
pub mod stream;
pub mod fields;
pub mod response;
pub mod request;

pub use frame::{H3Frame, FrameParser, FrameType};
pub use stream::{StreamManager, StreamState, StreamStateType, StreamEvent, StreamType};
pub use request::{H3Request, H3RequestBuilder, Method, Uri};
pub use response::{H3Response, Body};
pub use flow_control::{FlowController, FlowControlEvent, WindowUpdate};
