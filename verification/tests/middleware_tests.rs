//! Tests for the middleware chain, its units, and the rate limiter.

use hyperserve::method::Method;
use hyperserve::middleware::{Chain, Middleware, AppendHeaderMiddleware, LoggingMiddleware,
    RecoveryMiddleware, SecurityHeadersMiddleware, RateLimitMiddleware};
use hyperserve::parser::Request;
use hyperserve::router::StaticHandler;
use hyperserve::status::Status;

fn plain_request() -> Request {
    Request {
        method: Method::GET,
        path: b"/".to_vec(),
        version: b"HTTP/1.1".to_vec(),
        headers: Vec::new(),
        body: Vec::new(),
    }
}

fn handler() -> StaticHandler {
    StaticHandler { status: Status::OK, body: b"R".to_vec() }
}

fn append(name: &[u8], value: &[u8]) -> Middleware {
    Middleware::AppendHeader(AppendHeaderMiddleware {
        name: name.to_vec(),
        value: value.to_vec(),
    })
}

#[test]
fn test_middleware_order() {
    // Units [A, B] around a handler returning R unchanged: both headers
    // appear, B's applied before A's.
    let mut chain = Chain::new().add(append(b"X-A", b"a")).add(append(b"X-B", b"b"));
    let req = plain_request();
    let resp = chain.run(&req, 0, &handler());
    assert_eq!(resp.status, Status::OK);
    assert_eq!(resp.body, b"R".to_vec());
    let n = resp.headers.len();
    assert_eq!(resp.headers[n - 2], (b"X-B".to_vec(), b"b".to_vec()));
    assert_eq!(resp.headers[n - 1], (b"X-A".to_vec(), b"a".to_vec()));
}

#[test]
fn test_security_headers_appended() {
    let mut chain = Chain::new().add(Middleware::SecurityHeaders(
        SecurityHeadersMiddleware::default(),
    ));
    let req = plain_request();
    let resp = chain.run(&req, 0, &handler());
    let mut out = Vec::new();
    resp.write_to(&mut out);
    let text = String::from_utf8(out).unwrap();
    assert!(text.contains("X-Content-Type-Options: nosniff"));
    assert!(text.contains("X-Frame-Options: DENY"));
    assert!(text.contains("X-XSS-Protection: 1; mode=block"));
    assert!(text.contains("Referrer-Policy: strict-origin-when-cross-origin"));
}

#[test]
fn test_logging_and_recovery_are_identity() {
    let mut chain = Chain::new()
        .add(Middleware::Logging(LoggingMiddleware))
        .add(Middleware::Recovery(RecoveryMiddleware));
    let req = plain_request();
    let resp = chain.run(&req, 0, &handler());
    assert_eq!(resp.status, Status::OK);
    assert_eq!(resp.body, b"R".to_vec());
}

#[test]
fn test_logging_lines() {
    let logging = LoggingMiddleware;
    let req = plain_request();
    assert_eq!(logging.request_line(&req), b"GET /".to_vec());
    assert_eq!(logging.response_line(Status::OK, 12), b"  -> 200 in 12ms".to_vec());
}

#[test]
fn test_recovery_fallback() {
    let resp = RecoveryMiddleware.fallback_response();
    assert_eq!(resp.status, Status::InternalServerError);
    assert_eq!(resp.body, b"Internal Server Error".to_vec());
}

#[test]
fn test_rate_limiter_window() {
    // Exactly max_requests calls inside the window pass; the next is
    // rejected; after the window elapses, a call passes again.
    let mut rl = RateLimitMiddleware::new(3, 1000);
    assert!(rl.check(b"client", 0));
    assert!(rl.check(b"client", 10));
    assert!(rl.check(b"client", 20));
    assert!(!rl.check(b"client", 30));
    assert!(rl.check(b"client", 1020));
}

#[test]
fn test_rate_limiter_keys_independent() {
    let mut rl = RateLimitMiddleware::new(1, 1000);
    assert!(rl.check(b"a", 0));
    assert!(!rl.check(b"a", 1));
    assert!(rl.check(b"b", 2));
}

#[test]
fn test_rate_limited_chain_answers_429() {
    let mut chain = Chain::new().add(Middleware::RateLimit(RateLimitMiddleware::new(1, 1000)));
    let req = plain_request();
    let ok = chain.run(&req, 0, &handler());
    assert_eq!(ok.status, Status::OK);
    let limited = chain.run(&req, 1, &handler());
    assert_eq!(limited.status, Status::TooManyRequests);
    assert_eq!(limited.body, b"Rate limit exceeded".to_vec());
    let mut out = Vec::new();
    limited.write_to(&mut out);
    assert!(String::from_utf8(out).unwrap().contains("Retry-After: 60"));
}

#[test]
fn test_rate_limit_outer_middleware_still_applies() {
    // The outer unit's after phase post-processes even a short-circuited
    // response.
    let mut chain = Chain::new()
        .add(append(b"X-Outer", b"yes"))
        .add(Middleware::RateLimit(RateLimitMiddleware::new(0, 1000)));
    let req = plain_request();
    let resp = chain.run(&req, 0, &handler());
    assert_eq!(resp.status, Status::TooManyRequests);
    let n = resp.headers.len();
    assert_eq!(resp.headers[n - 1], (b"X-Outer".to_vec(), b"yes".to_vec()));
}

#[test]
fn test_client_key_from_headers() {
    let mut req = plain_request();
    assert_eq!(RateLimitMiddleware::get_client_key(&req), b"unknown".to_vec());
    req.headers.push((b"x-real-ip".to_vec(), b"10.0.0.1".to_vec()));
    assert_eq!(RateLimitMiddleware::get_client_key(&req), b"10.0.0.1".to_vec());
    req.headers.push((b"x-forwarded-for".to_vec(), b"10.9.9.9".to_vec()));
    assert_eq!(RateLimitMiddleware::get_client_key(&req), b"10.9.9.9".to_vec());
}
