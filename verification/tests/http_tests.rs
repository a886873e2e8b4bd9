//! Tests for the HTTP parser, response builder and router.

use hyperserve::method::Method;
use hyperserve::parser::{Request, ParseError};
use hyperserve::response::{Response, content_length_of};
use hyperserve::router::{Router, StaticHandler, EchoHandler};
use hyperserve::session::{handle_buffer, required_total, ConnReply};
use hyperserve::status::Status;

#[test]
fn test_parse_get_request() {
    let request = b"GET /index.html HTTP/1.1\r\nHost: localhost\r\n\r\n";
    let (req, _) = Request::parse(request).unwrap();

    assert_eq!(req.method, Method::GET);
    assert_eq!(req.path, b"/index.html".to_vec());
    assert_eq!(req.version, b"HTTP/1.1".to_vec());
    assert_eq!(req.header(b"Host"), Some(b"localhost".to_vec()));
}

#[test]
fn test_parse_post_with_body() {
    let request = b"POST /api/users HTTP/1.1\r\nContent-Length: 13\r\n\r\nHello, World!";
    let (req, _) = Request::parse(request).unwrap();

    assert_eq!(req.method, Method::POST);
    assert_eq!(req.body, b"Hello, World!".to_vec());
    assert_eq!(req.content_length(), Some(13));
}

#[test]
fn test_parse_body_offset() {
    let request = b"PUT /x HTTP/1.1\r\nContent-Length: 3\r\n\r\nabc";
    let (req, body_start) = Request::parse(request).unwrap();
    assert_eq!(body_start, request.len() - 3);
    assert_eq!(req.body, b"abc".to_vec());
    assert_eq!(required_total(request), request.len());
}

#[test]
fn test_parse_partial_body() {
    // Headers complete, body short of the declared length: the caller must
    // read 5 more bytes and parse again.
    let request = b"POST /e HTTP/1.1\r\nContent-Length: 8\r\n\r\nabc";
    let (req, body_start) = Request::parse(request).unwrap();
    assert_eq!(req.body, b"abc".to_vec());
    assert_eq!(required_total(request), body_start + 8);
}

#[test]
fn test_parse_error_empty() {
    assert_eq!(Request::parse(b"").unwrap_err(), ParseError::InvalidRequest);
}

#[test]
fn test_parse_error_method() {
    let r = Request::parse(b"BREW /pot HTTP/1.1\r\n\r\n");
    assert_eq!(r.unwrap_err(), ParseError::InvalidMethod);
}

#[test]
fn test_parse_error_path() {
    let r = Request::parse(b"GET\r\n\r\n");
    assert_eq!(r.unwrap_err(), ParseError::InvalidPath);
}

#[test]
fn test_parse_error_version() {
    let r = Request::parse(b"GET /\r\n\r\n");
    assert_eq!(r.unwrap_err(), ParseError::InvalidVersion);
}

#[test]
fn test_parse_error_header() {
    let r = Request::parse(b"GET / HTTP/1.1\r\nnot-a-header-line\r\n\r\n");
    assert_eq!(r.unwrap_err(), ParseError::InvalidHeader);
}

#[test]
fn test_parse_error_messages() {
    assert_eq!(ParseError::InvalidRequest.message(), "Invalid HTTP request");
    assert_eq!(ParseError::InvalidMethod.message(), "Invalid HTTP method");
    assert_eq!(ParseError::InvalidPath.message(), "Invalid request path");
    assert_eq!(ParseError::InvalidVersion.message(), "Invalid HTTP version");
    assert_eq!(ParseError::InvalidHeader.message(), "Invalid HTTP header");
}

#[test]
fn test_parse_all_methods() {
    for (token, method) in [
        ("GET", Method::GET),
        ("POST", Method::POST),
        ("PUT", Method::PUT),
        ("DELETE", Method::DELETE),
        ("HEAD", Method::HEAD),
        ("OPTIONS", Method::OPTIONS),
        ("PATCH", Method::PATCH),
    ] {
        let buffer = format!("{token} / HTTP/1.1\r\n\r\n");
        let (req, _) = Request::parse(buffer.as_bytes()).unwrap();
        assert_eq!(req.method, method);
        assert_eq!(method.as_str(), token);
    }
}

#[test]
fn test_parse_duplicate_header_last_wins() {
    let request = b"GET / HTTP/1.1\r\nX-K: one\r\nX-K: two\r\n\r\n";
    let (req, _) = Request::parse(request).unwrap();
    assert_eq!(req.header(b"X-K"), Some(b"two".to_vec()));
}

#[test]
fn test_parse_header_value_trimmed() {
    let request = b"GET / HTTP/1.1\r\nX-K:   spaced value  \r\n\r\n";
    let (req, _) = Request::parse(request).unwrap();
    assert_eq!(req.header(b"X-K"), Some(b"spaced value".to_vec()));
}

#[test]
fn test_response_builder() {
    let response = Response::new(Status::OK)
        .header(b"X-Custom".to_vec(), b"test".to_vec())
        .body(b"Hello, World!".to_vec());

    let mut output = Vec::new();
    response.write_to(&mut output);

    let response_str = String::from_utf8(output).unwrap();
    assert!(response_str.contains("HTTP/1.1 200 OK"));
    assert!(response_str.contains("X-Custom: test"));
    assert!(response_str.contains("Hello, World!"));
}

#[test]
fn test_response_content_length_round_trip() {
    // The serialized Content-Length always equals the final body's length,
    // even after interleaved header and body mutations.
    let mut response = Response::new(Status::OK).body(b"first".to_vec());
    response.add_header(b"X-A".to_vec(), b"1".to_vec());
    let response = response.body(b"second body".to_vec());
    let mut output = Vec::new();
    response.write_to(&mut output);
    assert_eq!(content_length_of(&output), Some(11));
}

#[test]
fn test_response_content_length_empty_body() {
    let response = Response::new(Status::NoContent);
    let mut output = Vec::new();
    response.write_to(&mut output);
    assert_eq!(content_length_of(&output), Some(0));
}

#[test]
fn test_response_header_replaces() {
    let response = Response::new(Status::OK)
        .header(b"Content-Type".to_vec(), b"application/json".to_vec());
    let mut output = Vec::new();
    response.write_to(&mut output);
    let text = String::from_utf8(output).unwrap();
    assert!(text.contains("Content-Type: application/json"));
    assert!(!text.contains("text/plain"));
}

#[test]
fn test_response_not_found() {
    let response = Response::not_found();
    assert_eq!(response.status, Status::NotFound);
    assert_eq!(response.body, b"404 Not Found".to_vec());
    let mut output = Vec::new();
    response.write_to(&mut output);
    assert!(String::from_utf8(output).unwrap().contains("HTTP/1.1 404 Not Found"));
}

#[test]
fn test_response_json_body() {
    let response = Response::ok().json(Some(b"{\"k\":1}".to_vec()));
    assert_eq!(response.body, b"{\"k\":1}".to_vec());
    let mut output = Vec::new();
    response.write_to(&mut output);
    assert!(String::from_utf8(output).unwrap().contains("Content-Type: application/json"));
}

#[test]
fn test_response_json_failure() {
    let response = Response::ok().json(None);
    assert_eq!(response.status, Status::InternalServerError);
    assert_eq!(response.body, b"JSON serialization error".to_vec());
}

#[test]
fn test_router_exact_match() {
    let mut router = Router::new();
    router.get(b"/".to_vec(), StaticHandler { status: Status::OK, body: b"Home".to_vec() });
    router.post(
        b"/users".to_vec(),
        StaticHandler { status: Status::Created, body: b"Create user".to_vec() },
    );

    let req = Request {
        method: Method::GET,
        path: b"/".to_vec(),
        version: b"HTTP/1.1".to_vec(),
        headers: Vec::new(),
        body: Vec::new(),
    };
    let resp = router.handle(&req, 0);
    assert_eq!(resp.status, Status::OK);
    assert_eq!(resp.body, b"Home".to_vec());

    let req2 = Request {
        method: Method::POST,
        path: b"/users".to_vec(),
        version: b"HTTP/1.1".to_vec(),
        headers: Vec::new(),
        body: Vec::new(),
    };
    let resp2 = router.handle(&req2, 0);
    assert_eq!(resp2.status, Status::Created);
    assert_eq!(resp2.body, b"Create user".to_vec());
}

#[test]
fn test_router_miss_is_not_found() {
    let mut router: Router<EchoHandler> = Router::new();
    let req = Request {
        method: Method::GET,
        path: b"/absent".to_vec(),
        version: b"HTTP/1.1".to_vec(),
        headers: Vec::new(),
        body: Vec::new(),
    };
    let resp = router.handle(&req, 0);
    assert_eq!(resp.status, Status::NotFound);
    assert_eq!(resp.body, b"404 Not Found".to_vec());
}

#[test]
fn test_router_last_registration_wins() {
    let mut router = Router::new();
    router.get(b"/a".to_vec(), StaticHandler { status: Status::OK, body: b"old".to_vec() });
    router.get(b"/a".to_vec(), StaticHandler { status: Status::OK, body: b"new".to_vec() });
    let req = Request {
        method: Method::GET,
        path: b"/a".to_vec(),
        version: b"HTTP/1.1".to_vec(),
        headers: Vec::new(),
        body: Vec::new(),
    };
    assert_eq!(router.handle(&req, 0).body, b"new".to_vec());
}

#[test]
fn test_echo_scenario() {
    // POST /echo with a 13-byte body comes back byte for byte.
    let mut router = Router::new();
    router.post(b"/echo".to_vec(), EchoHandler);
    let buffer = b"POST /echo HTTP/1.1\r\nContent-Length: 13\r\n\r\nHello, World!";
    assert_eq!(required_total(buffer), buffer.len());
    match handle_buffer(&mut router, buffer, 0) {
        ConnReply::Respond(bytes) => {
            let text = String::from_utf8(bytes.clone()).unwrap();
            assert!(text.starts_with("HTTP/1.1 200 OK"));
            assert!(text.contains("Content-Length: 13"));
            assert!(text.ends_with("Hello, World!"));
            assert_eq!(content_length_of(&bytes), Some(13));
        }
        ConnReply::Upgrade(_) => panic!("unexpected upgrade"),
    }
}

#[test]
fn test_handle_buffer_bad_request() {
    let mut router: Router<EchoHandler> = Router::new();
    match handle_buffer(&mut router, b"NOPE\r\n\r\n", 0) {
        ConnReply::Respond(bytes) => {
            let text = String::from_utf8(bytes).unwrap();
            assert!(text.starts_with("HTTP/1.1 400 Bad Request"));
            assert!(text.ends_with("Bad Request"));
        }
        ConnReply::Upgrade(_) => panic!("unexpected upgrade"),
    }
}
