//! HTTP/3 request types and builders.

use vstd::prelude::*;
use vstd::string::StringSliceAdditionalSpecFns;
use crate::config::Priority;
use crate::protocol::frame::{HeaderList, MAX_HEADER_FIELDS, spec_set_header};
use crate::protocol::fields::{content_length, content_length_of, set_header};
use crate::protocol::response::Body;

verus! {

/// HTTP request methods.
#[derive(Debug, Clone, Copy, PartialEq, Eq, Hash, Structural)]
pub enum Method {
    Options,
    Get,
    Post,
    Put,
    Delete,
    Head,
    Trace,
    Connect,
    Patch,
}

/// The name of a method as it is written in a request.
pub open spec fn method_text(m: Method) -> Seq<char> {
    match m {
        Method::Options => "OPTIONS"@,
        Method::Get => "GET"@,
        Method::Post => "POST"@,
        Method::Put => "PUT"@,
        Method::Delete => "DELETE"@,
        Method::Head => "HEAD"@,
        Method::Trace => "TRACE"@,
        Method::Connect => "CONNECT"@,
        Method::Patch => "PATCH"@,
    }
}

impl Method {
    /// The name of the method as it is written in a request.
    pub fn as_str(&self) -> (s: &'static str)
        ensures
            s@ == method_text(*self),
    {
        match self {
            Method::Options => "OPTIONS",
            Method::Get => "GET",
            Method::Post => "POST",
            Method::Put => "PUT",
            Method::Delete => "DELETE",
            Method::Head => "HEAD",
            Method::Trace => "TRACE",
            Method::Connect => "CONNECT",
            Method::Patch => "PATCH",
        }
    }
}

/// Whether `http::Uri` accepts `text` as a URI.
pub uninterp spec fn uri_accepts(text: Seq<char>) -> bool;

/// What `http::Uri::authority` gives for the URI parsed from `text`.
pub uninterp spec fn uri_authority(text: Seq<char>) -> Option<Seq<char>>;

/// What `http::Uri::path` gives for the URI parsed from `text`.
pub uninterp spec fn uri_path(text: Seq<char>) -> Seq<char>;

/// What `http::Uri::query` gives for the URI parsed from `text`.
pub uninterp spec fn uri_query(text: Seq<char>) -> Option<Seq<char>>;

/// The characters of an optional string.
pub open spec fn opt_text(o: Option<String>) -> Option<Seq<char>> {
    match o {
        Some(s) => Some(s@),
        None => None,
    }
}

/// `http::Uri::try_from(text)` and, when it succeeds, the URI's `authority`, `path` and
/// `query` as strings. Nothing is stated of which texts parse or what the parts are.
#[verifier::external_body]
fn parse_uri(text: &str) -> (r: Option<(Option<String>, String, Option<String>)>)
    ensures
        r is Some <==> uri_accepts(text@),
        r matches Some(parts) ==> opt_text(parts.0) == uri_authority(text@) && parts.1@ == uri_path(
            text@,
        ) && opt_text(parts.2) == uri_query(text@),
{
    match http::Uri::try_from(text) {
        Ok(u) => Some(
            (
                u.authority().map(|a| a.as_str().to_owned()),
                u.path().to_owned(),
                u.query().map(|q| q.to_owned()),
            ),
        ),
        Err(_) => None,
    }
}

/// A request URI: its text and the parts that requests read.
#[derive(Debug, Clone)]
pub struct Uri {
    text: String,
    authority: Option<String>,
    path: String,
    query: Option<String>,
}

/// The text of a URI and its parts.
pub struct UriModel {
    pub text: Seq<char>,
    pub authority: Option<Seq<char>>,
    pub path: Seq<char>,
    pub query: Option<Seq<char>>,
}

/// The URI that parsing `text` gives.
pub open spec fn parsed_uri(text: Seq<char>) -> UriModel {
    UriModel {
        text,
        authority: uri_authority(text),
        path: uri_path(text),
        query: uri_query(text),
    }
}

impl View for Uri {
    type V = UriModel;

    closed spec fn view(&self) -> UriModel {
        UriModel {
            text: self.text@,
            authority: opt_text(self.authority),
            path: self.path@,
            query: opt_text(self.query),
        }
    }
}

impl Uri {
    /// Parse `text` as a URI.
    pub fn parse(text: &str) -> (r: Option<Uri>)
        ensures
            r is Some <==> uri_accepts(text@),
            r matches Some(u) ==> u@ == parsed_uri(text@),
    {
        match parse_uri(text) {
            Some(parts) => {
                let (authority, path, query) = parts;
                Some(Uri { text: text.to_owned(), authority, path, query })
            },
            None => None,
        }
    }

    /// The URI's text.
    pub fn as_str(&self) -> (s: &str)
        ensures
            s@ == self@.text,
    {
        self.text.as_str()
    }

    /// The URI's authority (host and port), if it has one.
    pub fn authority(&self) -> (a: Option<&str>)
        ensures
            match a {
                Some(s) => self@.authority == Some(s@),
                None => self@.authority is None,
            },
    {
        match &self.authority {
            Some(s) => Some(s.as_str()),
            None => None,
        }
    }

    /// The URI's path.
    pub fn path(&self) -> (p: &str)
        ensures
            p@ == self@.path,
    {
        self.path.as_str()
    }

    /// The URI's query string, if it has one.
    pub fn query(&self) -> (q: Option<&str>)
        ensures
            match q {
                Some(s) => self@.query == Some(s@),
                None => self@.query is None,
            },
    {
        match &self.query {
            Some(s) => Some(s.as_str()),
            None => None,
        }
    }
}

/// The priority a request starts with: weight 16, no dependency.
pub open spec fn default_priority() -> Priority {
    Priority { weight: 16, depends_on: None, exclusive: false }
}

/// The view of an optional body.
pub open spec fn opt_body(b: Option<Body>) -> Option<Option<Seq<u8>>> {
    match b {
        Some(body) => Some(body@),
        None => None,
    }
}

/// An HTTP/3 request.
#[derive(Debug, Clone)]
pub struct H3Request {
    /// HTTP method
    pub method: Method,
    /// Request URI
    pub uri: Uri,
    /// Request headers
    pub headers: HeaderList,
    /// Request body
    pub body: Option<Body>,
    /// Stream priority
    pub priority: Priority,
}

impl H3Request {
    /// Create a new request with the given method and URI.
    pub fn new(method: Method, uri: Uri) -> (r: Self)
        ensures
            r.method == method,
            r.uri@ == uri@,
            r.headers@ == Seq::<(Seq<u8>, Seq<u8>)>::empty(),
            r.body is None,
            r.priority == default_priority(),
    {
        H3Request { method, uri, headers: HeaderList::new(), body: None, priority: Priority::default() }
    }

    /// Create a GET request.
    pub fn get(uri: &str) -> (b: H3RequestBuilder)
        ensures
            b@ == fresh_builder(Method::Get, uri@),
    {
        H3RequestBuilder::new(Method::Get, uri)
    }

    /// Create a POST request.
    pub fn post(uri: &str) -> (b: H3RequestBuilder)
        ensures
            b@ == fresh_builder(Method::Post, uri@),
    {
        H3RequestBuilder::new(Method::Post, uri)
    }

    /// Create a PUT request.
    pub fn put(uri: &str) -> (b: H3RequestBuilder)
        ensures
            b@ == fresh_builder(Method::Put, uri@),
    {
        H3RequestBuilder::new(Method::Put, uri)
    }

    /// Create a DELETE request.
    pub fn delete(uri: &str) -> (b: H3RequestBuilder)
        ensures
            b@ == fresh_builder(Method::Delete, uri@),
    {
        H3RequestBuilder::new(Method::Delete, uri)
    }

    /// Create a PATCH request.
    pub fn patch(uri: &str) -> (b: H3RequestBuilder)
        ensures
            b@ == fresh_builder(Method::Patch, uri@),
    {
        H3RequestBuilder::new(Method::Patch, uri)
    }

    /// Get the content length if available.
    pub fn content_length(&self) -> (n: Option<u64>)
        ensures
            n == content_length_of(self.headers@),
    {
        content_length(&self.headers)
    }

    /// Check if the request has a body.
    pub fn has_body(&self) -> (b: bool)
        ensures
            b == (self.body is Some),
    {
        self.body.is_some()
    }

    /// Get the request authority (host).
    pub fn authority(&self) -> (a: Option<&str>)
        ensures
            match a {
                Some(s) => self.uri@.authority == Some(s@),
                None => self.uri@.authority is None,
            },
    {
        self.uri.authority()
    }

    /// Get the request path.
    pub fn path(&self) -> (p: &str)
        ensures
            p@ == self.uri@.path,
    {
        self.uri.path()
    }

    /// Get the request query string.
    pub fn query(&self) -> (q: Option<&str>)
        ensures
            match q {
                Some(s) => self.uri@.query == Some(s@),
                None => self.uri@.query is None,
            },
    {
        self.uri.query()
    }
}

/// A request under construction: its method, its URI (`None` when the text did not parse),
/// headers, body and priority.
pub struct BuilderModel {
    pub method: Method,
    pub uri: Option<UriModel>,
    pub headers: Seq<(Seq<u8>, Seq<u8>)>,
    pub body: Option<Option<Seq<u8>>>,
    pub priority: Priority,
}

/// The builder that a request for `method` on the URI text `text` starts from.
pub open spec fn fresh_builder(method: Method, text: Seq<char>) -> BuilderModel {
    BuilderModel {
        method,
        uri: if uri_accepts(text) {
            Some(parsed_uri(text))
        } else {
            None
        },
        headers: Seq::empty(),
        body: None,
        priority: default_priority(),
    }
}

/// The view of an optional URI.
pub open spec fn opt_uri(u: Option<Uri>) -> Option<UriModel> {
    match u {
        Some(x) => Some(x@),
        None => None,
    }
}

/// Builder for constructing H3 requests.
#[derive(Debug)]
pub struct H3RequestBuilder {
    method: Method,
    uri: Option<Uri>,
    headers: HeaderList,
    body: Option<Body>,
    priority: Priority,
}

impl View for H3RequestBuilder {
    type V = BuilderModel;

    closed spec fn view(&self) -> BuilderModel {
        BuilderModel {
            method: self.method,
            uri: opt_uri(self.uri),
            headers: self.headers@,
            body: opt_body(self.body),
            priority: self.priority,
        }
    }
}

/// The URI text of a request did not parse.
#[derive(Debug)]
pub struct InvalidUri;

impl H3RequestBuilder {
    /// Create a new request builder.
    pub fn new(method: Method, uri: &str) -> (b: Self)
        ensures
            b@ == fresh_builder(method, uri@),
    {
        let b = H3RequestBuilder {
            method,
            uri: Uri::parse(uri),
            headers: HeaderList::new(),
            body: None,
            priority: Priority::default(),
        };
        assert(b@ =~= fresh_builder(method, uri@));
        b
    }

    /// Add a header to the request; an invalid name or value is left out.
    pub fn header(self, key: &str, value: &str) -> (b: Self)
        requires
            self@.headers.len() <= MAX_HEADER_FIELDS,
        ensures
            b@ == (BuilderModel {
                headers: spec_set_header(self@.headers, key.spec_bytes(), value.spec_bytes()),
                ..self@
            }),
    {
        let mut b = self;
        set_header(&mut b.headers, key, value);
        b
    }

    /// Set the request body.
    pub fn body(self, body: Body) -> (b: Self)
        ensures
            b@ == (BuilderModel { body: Some(body@), ..self@ }),
    {
        let mut b = self;
        b.body = Some(body);
        b
    }

    /// Set the request priority.
    pub fn priority(self, priority: Priority) -> (b: Self)
        ensures
            b@ == (BuilderModel { priority, ..self@ }),
    {
        let mut b = self;
        b.priority = priority;
        b
    }

    /// Set the content type header; an invalid value is left out.
    pub fn content_type(self, content_type: &str) -> (b: Self)
        requires
            self@.headers.len() <= MAX_HEADER_FIELDS,
        ensures
            b@ == (BuilderModel {
                headers: spec_set_header(
                    self@.headers,
                    "content-type".spec_bytes(),
                    content_type.spec_bytes(),
                ),
                ..self@
            }),
    {
        self.header("content-type", content_type)
    }

    /// Set the user agent header; an invalid value is left out.
    pub fn user_agent(self, user_agent: &str) -> (b: Self)
        requires
            self@.headers.len() <= MAX_HEADER_FIELDS,
        ensures
            b@ == (BuilderModel {
                headers: spec_set_header(
                    self@.headers,
                    "user-agent".spec_bytes(),
                    user_agent.spec_bytes(),
                ),
                ..self@
            }),
    {
        self.header("user-agent", user_agent)
    }

    /// Set the authorization header; an invalid value is left out.
    pub fn authorization(self, auth: &str) -> (b: Self)
        requires
            self@.headers.len() <= MAX_HEADER_FIELDS,
        ensures
            b@ == (BuilderModel {
                headers: spec_set_header(
                    self@.headers,
                    "authorization".spec_bytes(),
                    auth.spec_bytes(),
                ),
                ..self@
            }),
    {
        self.header("authorization", auth)
    }

    /// Build the request; fails exactly when the URI text did not parse.
    pub fn build(self) -> (r: Result<H3Request, InvalidUri>)
        ensures
            match r {
                Ok(req) => self@.uri == Some(req.uri@) && req.method == self@.method
                    && req.headers@ == self@.headers && opt_body(req.body) == self@.body
                    && req.priority == self@.priority,
                Err(_) => self@.uri is None,
            },
    {
        match self.uri {
            Some(uri) => Ok(
                H3Request {
                    method: self.method,
                    uri,
                    headers: self.headers,
                    body: self.body,
                    priority: self.priority,
                },
            ),
            None => Err(InvalidUri),
        }
    }
}

} // verus!
