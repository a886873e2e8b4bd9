//! Tests for the WebSocket frame codec, masking, and the handshake.

use hyperserve::frame::{Frame, OpCode, FrameError, apply_mask};
use hyperserve::handshake::{base64_encode, sha1, calculate_accept_key, handshake_response,
    upgrade_key, to_lower, contains_bytes};
use hyperserve::method::Method;
use hyperserve::parser::Request;
use hyperserve::router::EchoHandler;
use hyperserve::router::Router;
use hyperserve::session::{handle_buffer, session_step, ConnReply, SessionAction};

fn hex(bytes: &[u8]) -> String {
    let mut s = String::new();
    for b in bytes {
        s.push_str(&format!("{:02x}", b));
    }
    s
}

#[test]
fn test_mask_round_trip() {
    // Masking then unmasking with the same key gives the payload back.
    let key = [0x37u8, 0xfa, 0x21, 0x3d];
    let original = b"Hello, masked world!".to_vec();
    let mut payload = original.clone();
    apply_mask(&mut payload, &key);
    assert_ne!(payload, original);
    apply_mask(&mut payload, &key);
    assert_eq!(payload, original);
}

#[test]
fn test_frame_encode_small() {
    let mut out = Vec::new();
    Frame::text("Hi").write_to(&mut out);
    assert_eq!(out, vec![0x81, 0x02, b'H', b'i']);
}

#[test]
fn test_frame_encode_medium_length() {
    let payload = vec![7u8; 300];
    let mut out = Vec::new();
    Frame::binary(payload).write_to(&mut out);
    // FIN+binary, the 16-bit marker, then 300 big-endian.
    assert_eq!(&out[..4], &[0x82, 126, 0x01, 0x2C]);
    assert_eq!(out.len(), 4 + 300);
}

#[test]
fn test_frame_never_masked() {
    let mut out = Vec::new();
    Frame::pong(vec![1, 2, 3]).write_to(&mut out);
    assert_eq!(out[1] & 0x80, 0);
}

#[test]
fn test_frame_decode_unmasked() {
    let bytes = [0x81u8, 0x03, b'a', b'b', b'c'];
    let (frame, used) = Frame::read_from(&bytes).unwrap();
    assert!(frame.fin);
    assert_eq!(frame.opcode, OpCode::Text);
    assert_eq!(frame.payload, b"abc".to_vec());
    assert_eq!(used, 5);
}

#[test]
fn test_frame_decode_masked() {
    // A client frame: the payload arrives XORed with the 4-byte key.
    let key = [0x10u8, 0x20, 0x30, 0x40];
    let mut masked = b"ping".to_vec();
    apply_mask(&mut masked, &key);
    let mut bytes = vec![0x89u8, 0x80 | 0x04];
    bytes.extend_from_slice(&key);
    bytes.extend_from_slice(&masked);
    let (frame, used) = Frame::read_from(&bytes).unwrap();
    assert_eq!(frame.opcode, OpCode::Ping);
    assert_eq!(frame.payload, b"ping".to_vec());
    assert_eq!(used, bytes.len());
}

#[test]
fn test_frame_decode_incomplete() {
    assert_eq!(Frame::read_from(&[0x81]).unwrap_err(), FrameError::Incomplete);
    assert_eq!(Frame::read_from(&[0x81, 0x05, b'a']).unwrap_err(), FrameError::Incomplete);
}

#[test]
fn test_frame_decode_invalid_opcode() {
    // Opcode values 3..=7 and 0xB..=0xF are protocol-invalid.
    assert_eq!(Frame::read_from(&[0x83, 0x00]).unwrap_err(), FrameError::InvalidOpcode);
    assert_eq!(Frame::read_from(&[0x8B, 0x00]).unwrap_err(), FrameError::InvalidOpcode);
}

#[test]
fn test_frame_round_trip_large() {
    // A payload past the 16-bit field exercises the 64-bit length form.
    let payload = vec![0xABu8; 70000];
    let mut out = Vec::new();
    Frame::binary(payload.clone()).write_to(&mut out);
    assert_eq!(&out[..2], &[0x82, 127]);
    let (frame, used) = Frame::read_from(&out).unwrap();
    assert_eq!(frame.payload, payload);
    assert_eq!(used, out.len());
}

#[test]
fn test_base64_known_values() {
    assert_eq!(base64_encode(b""), b"".to_vec());
    assert_eq!(base64_encode(b"f"), b"Zg==".to_vec());
    assert_eq!(base64_encode(b"fo"), b"Zm8=".to_vec());
    assert_eq!(base64_encode(b"foo"), b"Zm9v".to_vec());
    assert_eq!(base64_encode(b"foobar"), b"Zm9vYmFy".to_vec());
}

#[test]
fn test_sha1_known_digest() {
    assert_eq!(hex(&sha1(b"abc")), "a9993e364706816aba3e25717850c26c9cd0d89d");
    assert_eq!(hex(&sha1(b"")), "da39a3ee5e6b4b0d3255bfef95601890afd80709");
}

#[test]
fn test_handshake_accept_key() {
    // The worked protocol example: this sample nonce must produce exactly
    // this accept value.
    let accept = calculate_accept_key(b"dGhlIHNhbXBsZSBub25jZQ==");
    assert_eq!(accept, b"s3pPLMBiTxaQ9kYGzzhZRbK+xOo=".to_vec());
}

#[test]
fn test_handshake_response_bytes() {
    let bytes = handshake_response(b"KEY");
    let text = String::from_utf8(bytes).unwrap();
    assert!(text.starts_with("HTTP/1.1 101 Switching Protocols\r\n"));
    assert!(text.contains("Upgrade: websocket\r\n"));
    assert!(text.contains("Connection: Upgrade\r\n"));
    assert!(text.contains("Sec-WebSocket-Accept: KEY\r\n"));
    assert!(text.ends_with("\r\n\r\n"));
}

fn upgrade_request(upgrade: &str, conn: &str, version: &str, key: Option<&str>) -> Request {
    let mut headers = vec![
        (b"Upgrade".to_vec(), upgrade.as_bytes().to_vec()),
        (b"Connection".to_vec(), conn.as_bytes().to_vec()),
        (b"Sec-WebSocket-Version".to_vec(), version.as_bytes().to_vec()),
    ];
    if let Some(k) = key {
        headers.push((b"Sec-WebSocket-Key".to_vec(), k.as_bytes().to_vec()));
    }
    Request {
        method: Method::GET,
        path: b"/ws".to_vec(),
        version: b"HTTP/1.1".to_vec(),
        headers,
        body: Vec::new(),
    }
}

#[test]
fn test_upgrade_eligible() {
    let req = upgrade_request("WebSocket", "keep-alive, Upgrade", "13", Some("k"));
    assert_eq!(upgrade_key(&req), Some(b"k".to_vec()));
}

#[test]
fn test_upgrade_ineligible() {
    // Any failing condition means "not a WebSocket request".
    assert_eq!(upgrade_key(&upgrade_request("other", "Upgrade", "13", Some("k"))), None);
    assert_eq!(upgrade_key(&upgrade_request("websocket", "close", "13", Some("k"))), None);
    assert_eq!(upgrade_key(&upgrade_request("websocket", "Upgrade", "12", Some("k"))), None);
    assert_eq!(upgrade_key(&upgrade_request("websocket", "Upgrade", "13", None)), None);
}

#[test]
fn test_handshake_over_buffer() {
    let mut router: Router<EchoHandler> = Router::new();
    let buffer = b"GET /ws HTTP/1.1\r\nUpgrade: websocket\r\nConnection: Upgrade\r\n\
Sec-WebSocket-Version: 13\r\nSec-WebSocket-Key: dGhlIHNhbXBsZSBub25jZQ==\r\n\r\n";
    match handle_buffer(&mut router, buffer, 0) {
        ConnReply::Upgrade(bytes) => {
            let text = String::from_utf8(bytes).unwrap();
            assert!(text.contains("Sec-WebSocket-Accept: s3pPLMBiTxaQ9kYGzzhZRbK+xOo=\r\n"));
        }
        ConnReply::Respond(_) => panic!("expected an upgrade"),
    }
}

#[test]
fn test_malformed_upgrade_falls_through() {
    // A failed eligibility check is not an error: the request is served as
    // plain HTTP, here a 404.
    let mut router: Router<EchoHandler> = Router::new();
    let buffer = b"GET /ws HTTP/1.1\r\nUpgrade: websocket\r\n\r\n";
    match handle_buffer(&mut router, buffer, 0) {
        ConnReply::Respond(bytes) => {
            assert!(String::from_utf8(bytes).unwrap().starts_with("HTTP/1.1 404"));
        }
        ConnReply::Upgrade(_) => panic!("must not upgrade"),
    }
}

#[test]
fn test_session_echo_text() {
    let frame = Frame::text("hi");
    match session_step(&frame) {
        SessionAction::Reply(f) => {
            assert_eq!(f.opcode, OpCode::Text);
            assert_eq!(f.payload, b"Echo: hi".to_vec());
        }
        _ => panic!("expected a reply"),
    }
}

#[test]
fn test_session_echo_binary() {
    let frame = Frame::binary(vec![1, 2, 3]);
    match session_step(&frame) {
        SessionAction::Reply(f) => {
            assert_eq!(f.opcode, OpCode::Binary);
            assert_eq!(f.payload, vec![1, 2, 3]);
        }
        _ => panic!("expected a reply"),
    }
}

#[test]
fn test_session_ping_pong() {
    let frame = Frame::ping(vec![9]);
    match session_step(&frame) {
        SessionAction::Reply(f) => {
            assert_eq!(f.opcode, OpCode::Pong);
            assert_eq!(f.payload, vec![9]);
        }
        _ => panic!("expected a pong"),
    }
}

#[test]
fn test_session_close() {
    let frame = Frame::close();
    match session_step(&frame) {
        SessionAction::ReplyAndStop(f) => assert_eq!(f.opcode, OpCode::Close),
        _ => panic!("expected a closing reply"),
    }
}

#[test]
fn test_session_pong_ignored() {
    let frame = Frame::pong(vec![]);
    assert!(matches!(session_step(&frame), SessionAction::Continue));
}

#[test]
fn test_to_lower_and_contains() {
    assert_eq!(to_lower(b"Keep-Alive, UPGRADE"), b"keep-alive, upgrade".to_vec());
    assert!(contains_bytes(b"keep-alive, upgrade", b"upgrade"));
    assert!(!contains_bytes(b"keep-alive", b"upgrade"));
}
