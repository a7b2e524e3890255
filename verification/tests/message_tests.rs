use wasm_h3::protocol::fields::parse_u64;
use wasm_h3::protocol::request::{H3Request, Method, Uri};
use wasm_h3::protocol::response::{Body, H3Response};

#[test]
fn test_request_builder() {
    let request = H3Request::get("https://example.com/api/data")
        .header("accept", "application/json")
        .user_agent("wasm-h3/1.0")
        .build()
        .unwrap();

    assert_eq!(request.method, Method::Get);
    assert_eq!(request.uri.path(), "/api/data");
    assert_eq!(request.headers.get(b"accept").unwrap(), b"application/json");
    assert_eq!(request.headers.get(b"user-agent").unwrap(), b"wasm-h3/1.0");
}

#[test]
fn test_post_with_body() {
    let body = Body::from_text("test data");
    let request = H3Request::post("https://example.com/api/submit")
        .content_type("text/plain")
        .body(body)
        .build()
        .unwrap();

    assert_eq!(request.method, Method::Post);
    assert!(request.has_body());
    assert_eq!(request.headers.get(b"content-type").unwrap(), b"text/plain");
}

#[test]
fn test_request_properties() {
    let request = H3Request::get("https://example.com:8080/path?query=value")
        .build()
        .unwrap();

    assert_eq!(request.authority(), Some("example.com:8080"));
    assert_eq!(request.path(), "/path");
    assert_eq!(request.query(), Some("query=value"));
}

#[test]
fn test_response_creation() {
    let response = H3Response::ok()
        .with_header("content-type", "application/json")
        .with_body(Body::from_text("{}"));

    assert_eq!(response.status, 200);
    assert!(response.is_success());
    assert_eq!(response.content_type().as_deref(), Some("application/json"));
}

#[test]
fn test_body_from_string() {
    let body = Body::from_text("test data");
    assert!(!body.is_empty());
    assert_eq!(body.size_hint(), Some(9));
}

#[test]
fn test_empty_body() {
    let body = Body::empty();
    assert!(body.is_empty());
    assert_eq!(body.size_hint(), Some(0));
}

#[test]
fn test_body_to_bytes() {
    let body = Body::from_text("test data");
    let bytes = body.to_bytes();
    assert_eq!(bytes, b"test data".to_vec());
}

#[test]
fn body_conversions() {
    assert!(Body::from(()).is_empty());
    let b = Body::from(vec![1u8, 2, 3]);
    assert_eq!(b.size_hint(), Some(3));
    assert_eq!(Body::from_slice(&[7u8, 8]).to_bytes(), vec![7u8, 8]);
    assert!(Body::empty().to_bytes().is_empty());
    let zero = Body::from_bytes(Vec::new());
    assert!(!zero.is_empty());
    assert_eq!(zero.size_hint(), Some(0));
}

#[test]
fn response_status_classes() {
    assert!(H3Response::not_found().is_client_error());
    assert!(!H3Response::not_found().is_success());
    assert!(H3Response::internal_server_error().is_server_error());
    assert!(!H3Response::internal_server_error().is_client_error());
    assert!(H3Response::new(299).is_success());
    assert!(!H3Response::new(300).is_success());
    assert!(!H3Response::new(199).is_success());
    assert!(H3Response::new(499).is_client_error());
    assert!(H3Response::new(599).is_server_error());
    assert!(!H3Response::new(600).is_server_error());
}

#[test]
fn content_length_reads_decimal() {
    let r = H3Response::ok().with_header("content-length", "1234");
    assert_eq!(r.content_length(), Some(1234));
    let r = H3Response::ok().with_header("content-length", "+7");
    assert_eq!(r.content_length(), Some(7));
    let r = H3Response::ok().with_header("content-length", "12a");
    assert_eq!(r.content_length(), None);
    let r = H3Response::ok().with_header("content-length", "18446744073709551616");
    assert_eq!(r.content_length(), None);
    let r = H3Response::ok().with_header("content-length", "18446744073709551615");
    assert_eq!(r.content_length(), Some(u64::MAX));
    assert_eq!(H3Response::ok().content_length(), None);
    let req = H3Request::put("https://example.com/")
        .header("content-length", "42")
        .build()
        .unwrap();
    assert_eq!(req.content_length(), Some(42));
}

#[test]
fn parse_u64_edges() {
    assert_eq!(parse_u64(b"0"), Some(0));
    assert_eq!(parse_u64(b"007"), Some(7));
    assert_eq!(parse_u64(b""), None);
    assert_eq!(parse_u64(b"+"), None);
    assert_eq!(parse_u64(b"-1"), None);
    assert_eq!(parse_u64(b" 1"), None);
    assert_eq!(parse_u64(b"99999999999999999999"), None);
}

#[test]
fn header_names_are_lowercased_and_invalid_ones_dropped() {
    let r = H3Response::ok().with_header("Content-Type", "text/html");
    assert_eq!(r.content_type().as_deref(), Some("text/html"));
    let r = H3Response::ok().with_header("bad name", "x");
    assert_eq!(r.headers.len(), 0);
    let r = H3Response::ok().with_header("x-ok", "line\nbreak");
    assert_eq!(r.headers.len(), 0);
    let r = H3Response::ok().with_header("x-a", "1").with_header("x-a", "2");
    assert_eq!(r.headers.len(), 1);
    assert_eq!(r.headers.get(b"x-a").unwrap(), b"2");
}

#[test]
fn content_type_needs_visible_ascii() {
    let r = H3Response::ok().with_header("content-type", "caf\u{e9}");
    assert_eq!(r.headers.len(), 1);
    assert_eq!(r.content_type(), None);
    let r = H3Response::ok().with_header("content-type", "a\tb");
    assert_eq!(r.content_type().as_deref(), Some("a\tb"));
}

#[test]
fn invalid_uri_fails_to_build() {
    assert!(H3Request::get("http://[::1").build().is_err());
    assert!(H3Request::delete("ht tp://x").build().is_err());
    assert!(Uri::parse("not a uri").is_none());
}

#[test]
fn request_parts_and_methods() {
    let uri = Uri::parse("https://example.com/a/b").unwrap();
    assert_eq!(uri.as_str(), "https://example.com/a/b");
    assert_eq!(uri.query(), None);
    let req = H3Request::new(Method::Head, uri);
    assert_eq!(req.method.as_str(), "HEAD");
    assert_eq!(req.path(), "/a/b");
    assert_eq!(req.authority(), Some("example.com"));
    assert!(!req.has_body());
    assert_eq!(req.priority.weight, 16);
    let req = H3Request::patch("/only/path?x=1").authorization("Bearer t").build().unwrap();
    assert_eq!(req.method, Method::Patch);
    assert_eq!(req.authority(), None);
    assert_eq!(req.path(), "/only/path");
    assert_eq!(req.query(), Some("x=1"));
    assert_eq!(req.headers.get(b"authorization").unwrap(), b"Bearer t");
}

#[test]
fn setting_a_header_reads_back_and_keeps_the_others() {
    let r = H3Response::ok()
        .with_header("a", "1")
        .with_header("b", "2")
        .with_header("a", "3");
    assert_eq!(r.headers.get(b"a").unwrap(), b"3");
    assert_eq!(r.headers.get(b"b").unwrap(), b"2");
    assert_eq!(r.headers.len(), 2);
    let req = H3Request::get("https://example.com/")
        .user_agent("one")
        .header("accept", "*/*")
        .user_agent("two")
        .build()
        .unwrap();
    assert_eq!(req.headers.get(b"user-agent").unwrap(), b"two");
    assert_eq!(req.headers.get(b"accept").unwrap(), b"*/*");
}
