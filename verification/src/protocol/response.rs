//! HTTP/3 responses and message bodies.

use vstd::prelude::*;
use vstd::std_specs::convert::FromSpecImpl;
use vstd::string::StringSliceAdditionalSpecFns;
use crate::protocol::frame::{HeaderList, MAX_HEADER_FIELDS, spec_set_header};
use crate::protocol::fields::{content_length, content_length_of, header_text, header_text_of, set_header};

verus! {

/// A message body whose bytes are known in full (streamed bodies are read into one of these).
#[derive(Debug, Clone)]
pub enum Body {
    /// Empty body
    Empty,
    /// Body with known bytes
    Bytes(Vec<u8>),
}

impl View for Body {
    /// `None` for the empty body, the bytes otherwise.
    type V = Option<Seq<u8>>;

    open spec fn view(&self) -> Option<Seq<u8>> {
        match self {
            Body::Empty => None,
            Body::Bytes(b) => Some(b@),
        }
    }
}

/// The number of bytes in a body.
pub open spec fn body_len(b: Option<Seq<u8>>) -> nat {
    match b {
        Some(bytes) => bytes.len(),
        None => 0,
    }
}

impl Body {
    /// Create an empty body.
    pub fn empty() -> (b: Self)
        ensures
            b@ is None,
    {
        Body::Empty
    }

    /// Create a body from bytes.
    pub fn from_bytes(bytes: Vec<u8>) -> (b: Self)
        ensures
            b@ == Some(bytes@),
    {
        Body::Bytes(bytes)
    }

    /// Create a body holding a copy of `bytes`.
    pub fn from_slice(bytes: &[u8]) -> (b: Self)
        ensures
            b@ == Some(bytes@),
    {
        Body::Bytes(vstd::slice::slice_to_vec(bytes))
    }

    /// Create a body holding the UTF-8 bytes of `text`.
    pub fn from_text(text: &str) -> (b: Self)
        ensures
            b@ == Some(text.spec_bytes()),
    {
        Body::Bytes(vstd::slice::slice_to_vec(text.as_bytes()))
    }

    /// Check if the body is empty (the empty body, not a body of zero bytes).
    pub fn is_empty(&self) -> (b: bool)
        ensures
            b == (self@ is None),
    {
        match self {
            Body::Empty => true,
            Body::Bytes(_) => false,
        }
    }

    /// Get the body size; it is always known.
    pub fn size_hint(&self) -> (n: Option<usize>)
        ensures
            n == Some(body_len(self@) as usize),
    {
        match self {
            Body::Empty => Some(0),
            Body::Bytes(b) => Some(b.len()),
        }
    }

    /// The body's bytes (none for the empty body).
    pub fn to_bytes(self) -> (v: Vec<u8>)
        ensures
            v@ == match self@ {
                Some(b) => b,
                None => Seq::empty(),
            },
    {
        match self {
            Body::Empty => Vec::new(),
            Body::Bytes(b) => b,
        }
    }
}

impl From<()> for Body {
    fn from(_unit: ()) -> (b: Self) {
        Body::Empty
    }
}

impl FromSpecImpl<()> for Body {
    open spec fn obeys_from_spec() -> bool {
        true
    }

    open spec fn from_spec(v: ()) -> Body {
        Body::Empty
    }
}

impl From<Vec<u8>> for Body {
    fn from(vec: Vec<u8>) -> (b: Self) {
        Body::Bytes(vec)
    }
}

impl FromSpecImpl<Vec<u8>> for Body {
    open spec fn obeys_from_spec() -> bool {
        true
    }

    open spec fn from_spec(v: Vec<u8>) -> Body {
        Body::Bytes(v)
    }
}

/// An HTTP/3 response.
#[derive(Debug)]
pub struct H3Response {
    /// Response status code
    pub status: u16,
    /// Response headers
    pub headers: HeaderList,
    /// Response body
    pub body: Body,
    /// Response trailers (sent after body)
    pub trailers: Option<HeaderList>,
}

impl H3Response {
    /// Create a new response with the given status code (a three-digit code).
    pub fn new(status: u16) -> (r: Self)
        requires
            100 <= status <= 999,
        ensures
            r.status == status,
            r.headers@ == Seq::<(Seq<u8>, Seq<u8>)>::empty(),
            r.body@ is None,
            r.trailers is None,
    {
        H3Response { status, headers: HeaderList::new(), body: Body::Empty, trailers: None }
    }

    /// Create a 200 OK response.
    pub fn ok() -> (r: Self)
        ensures
            r.status == 200,
            r.headers@ == Seq::<(Seq<u8>, Seq<u8>)>::empty(),
            r.body@ is None,
            r.trailers is None,
    {
        Self::new(200)
    }

    /// Create a 404 Not Found response.
    pub fn not_found() -> (r: Self)
        ensures
            r.status == 404,
            r.headers@ == Seq::<(Seq<u8>, Seq<u8>)>::empty(),
            r.body@ is None,
            r.trailers is None,
    {
        Self::new(404)
    }

    /// Create a 500 Internal Server Error response.
    pub fn internal_server_error() -> (r: Self)
        ensures
            r.status == 500,
            r.headers@ == Seq::<(Seq<u8>, Seq<u8>)>::empty(),
            r.body@ is None,
            r.trailers is None,
    {
        Self::new(500)
    }

    /// Get the content length if available.
    pub fn content_length(&self) -> (n: Option<u64>)
        ensures
            n == content_length_of(self.headers@),
    {
        content_length(&self.headers)
    }

    /// Check if the response is successful (2xx status code).
    pub fn is_success(&self) -> (b: bool)
        ensures
            b == (200 <= self.status < 300),
    {
        200 <= self.status && self.status < 300
    }

    /// Check if the response is a client error (4xx status code).
    pub fn is_client_error(&self) -> (b: bool)
        ensures
            b == (400 <= self.status < 500),
    {
        400 <= self.status && self.status < 500
    }

    /// Check if the response is a server error (5xx status code).
    pub fn is_server_error(&self) -> (b: bool)
        ensures
            b == (500 <= self.status < 600),
    {
        500 <= self.status && self.status < 600
    }

    /// Get the content type header, when its value reads as text.
    pub fn content_type(&self) -> (t: Option<String>)
        ensures
            match t {
                Some(x) => header_text_of(self.headers@, "content-type".spec_bytes()) == Some(x@),
                None => header_text_of(self.headers@, "content-type".spec_bytes()) is None,
            },
    {
        header_text(&self.headers, "content-type")
    }

    /// Set the response body.
    pub fn with_body(self, body: Body) -> (r: Self)
        ensures
            r.status == self.status,
            r.headers@ == self.headers@,
            r.body@ == body@,
            r.trailers == self.trailers,
    {
        let mut r = self;
        r.body = body;
        r
    }

    /// Set a header on the response; an invalid name or value leaves the headers unchanged.
    /// The response may hold at most `MAX_HEADER_FIELDS` headers before.
    pub fn with_header(self, key: &str, value: &str) -> (r: Self)
        requires
            self.headers@.len() <= MAX_HEADER_FIELDS,
        ensures
            r.status == self.status,
            r.headers@ == spec_set_header(self.headers@, key.spec_bytes(), value.spec_bytes()),
            r.body@ == self.body@,
            r.trailers == self.trailers,
    {
        let mut r = self;
        set_header(&mut r.headers, key, value);
        r
    }
}

} // verus!
