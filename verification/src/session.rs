//! Per-connection decision logic: how much of a request must be buffered,
//! what one complete buffer answers with, and what a WebSocket session does
//! with each frame. The runtime performs the reads and writes; everything
//! decided here is a function of the bytes.

use vstd::prelude::*;
use crate::decimal::spec_parse_decimal;
use crate::frame::{Frame, OpCode};
use crate::handshake::{spec_upgrade_key, upgrade_key, calculate_accept_key, handshake_response,
    switching_prefix};
use crate::middleware::{Handler, spec_run, mw_views};
use crate::parser::{Request, ReqModel, spec_parse, spec_header_lookup};
use crate::response::{Response, resp_model, spec_serialize, cl_name_bytes};
use crate::router::{Router, spec_terminal};
use crate::status::Status;

verus! {

/// How many bytes the whole request takes: the header section plus the
/// declared `Content-Length`, cut off at `usize::MAX`. While the buffer is
/// shorter, the runtime must keep reading; a buffer that does not parse, or
/// declares no length, is complete as it stands.
pub open spec fn spec_required_total(bytes: Seq<u8>) -> nat {
    match spec_parse(bytes) {
        Ok(m) => match spec_header_lookup(m.headers, cl_name_bytes()) {
            Some(v) => match spec_parse_decimal(v) {
                Some(n) => if n > usize::MAX {
                    bytes.len()
                } else if m.body_start + n > usize::MAX {
                    usize::MAX as nat
                } else {
                    (m.body_start + n) as nat
                },
                None => bytes.len(),
            },
            None => bytes.len(),
        },
        Err(_) => bytes.len(),
    }
}

/// How many bytes of this request must be buffered before it can be
/// served. A first read may hold the headers but not the whole body: the
/// caller reads until the buffer reaches this length, then parses again.
pub fn required_total(buffer: &[u8]) -> (r: usize)
    ensures
        r == spec_required_total(buffer@),
{
    match Request::parse(buffer) {
        Ok((req, body_start)) => match req.content_length() {
            Some(cl) => match body_start.checked_add(cl) {
                Some(total) => total,
                None => usize::MAX,
            },
            None => buffer.len(),
        },
        Err(_) => buffer.len(),
    }
}

/// What one complete request buffer is answered with.
pub enum ConnReply {
    /// Switch protocols: write these handshake bytes, then speak frames.
    Upgrade(Vec<u8>),
    /// Write these HTTP response bytes and close.
    Respond(Vec<u8>),
}

/// The model of the `400 Bad Request` reply to an unparsable buffer.
pub open spec fn model_bad_request() -> crate::response::RespModel {
    crate::response::RespModel {
        status: Status::BadRequest,
        headers: seq![
            (crate::response::server_name_bytes(), crate::response::server_value_bytes()),
            (crate::response::ct_name_bytes(), crate::response::ct_value_bytes()),
        ],
        // "Bad Request"
        body: seq![66u8, 97u8, 100u8, 32u8, 82u8, 101u8, 113u8, 117u8, 101u8, 115u8, 116u8],
    }
}

/// Serve one complete request buffer: an unparsable buffer draws the fixed
/// `400`; an upgradable request draws the `101` handshake carrying a
/// 28-byte accept key; anything else is routed through the middleware
/// chain and serialized.
pub fn handle_buffer<H: Handler>(
    router: &mut Router<H>,
    buffer: &[u8],
    now_ms: u64,
) -> (r: ConnReply)
    ensures
        final(router).routes@ == old(router).routes@,
        match spec_parse(buffer@) {
            Err(_) => match r {
                ConnReply::Respond(bytes) => ({
                    exists|resp: Response|
                        resp_model(resp) == model_bad_request() && bytes@ == #[trigger]
                        spec_serialize(resp)
                }),
                ConnReply::Upgrade(_) => false,
            },
            Ok(m) => if spec_upgrade_key(m.headers) is Some {
                match r {
                    ConnReply::Upgrade(bytes) => ({
                        exists|k: Seq<u8>|
                            k.len() == 28 && bytes@ == #[trigger] (switching_prefix() + k)
                                + seq![13u8, 10u8, 13u8, 10u8]
                    }),
                    ConnReply::Respond(_) => false,
                }
            } else {
                match r {
                    ConnReply::Respond(bytes) => ({
                        exists|resp: Response|
                            {
                                &&& resp_model(resp) == ({
                                    let rm = ReqModel {
                                        method: m.method,
                                        path: m.path,
                                        version: m.version,
                                        headers: m.headers,
                                        body: buffer@.skip(m.body_start as int),
                                    };
                                    match old(router).chain {
                                        Some(c) => spec_run(
                                            mw_views(c.units@),
                                            m.headers,
                                            now_ms,
                                            spec_terminal(old(router).routes@, rm),
                                        ).1,
                                        None => spec_terminal(old(router).routes@, rm),
                                    }
                                })
                                &&& bytes@ == #[trigger] spec_serialize(resp)
                            }
                    }),
                    ConnReply::Upgrade(_) => false,
                }
            },
        },
{
    match Request::parse(buffer) {
        Err(_) => {
            // "Bad Request"
            let body: [u8; 11] = [66, 97, 100, 32, 82, 101, 113, 117, 101, 115, 116];
            let resp = Response::new(Status::BadRequest).body(
                vstd::slice::slice_to_vec(body.as_slice()),
            );
            proof {
                assert(resp_model(resp) =~= model_bad_request());
            }
            let mut bytes: Vec<u8> = Vec::new();
            resp.write_to(&mut bytes);
            proof {
                assert(bytes@ =~= spec_serialize(resp));
            }
            ConnReply::Respond(bytes)
        },
        Ok((req, _body_start)) => {
            match upgrade_key(&req) {
                Some(key) => {
                    let accept = calculate_accept_key(key.as_slice());
                    let bytes = handshake_response(accept.as_slice());
                    proof {
                        assert(bytes@ == switching_prefix() + accept@ + seq![13u8, 10u8, 13u8,
                            10u8]);
                    }
                    ConnReply::Upgrade(bytes)
                },
                None => {
                    let resp = router.handle(&req, now_ms);
                    let mut bytes: Vec<u8> = Vec::new();
                    resp.write_to(&mut bytes);
                    proof {
                        assert(bytes@ =~= spec_serialize(resp));
                    }
                    ConnReply::Respond(bytes)
                },
            }
        },
    }
}

/// The pipeline keeps `Content-Length` honest end to end: any HTTP reply
/// a table of stock handlers and a chain of well-formed units can produce
/// — routed or `404`, post-processed or rate-limited to `429` — reads its
/// own body's length back out of its serialized bytes.
pub proof fn lemma_pipeline_content_length(
    resp: Response,
    units: Seq<crate::middleware::MwView>,
    hs: Seq<(Seq<u8>, Seq<u8>)>,
    now: u64,
    routes: Seq<(crate::method::Method, Vec<u8>, crate::router::RouteHandler)>,
    rm: ReqModel,
)
    requires
        forall|i: int| 0 <= i < units.len() ==> #[trigger] crate::middleware::mw_wf(units[i]),
        resp_model(resp) == spec_run(units, hs, now, spec_terminal(routes, rm)).1,
    ensures
        crate::response::spec_read_content_length(spec_serialize(resp)) == Some(
            resp.body@.len(),
        ),
{
    crate::router::lemma_terminal_wf(routes, rm);
    crate::middleware::lemma_run_preserves_wf(units, hs, now, spec_terminal(routes, rm));
    assert(crate::response::resp_headers_wf(resp));
    crate::response::lemma_content_length_round_trip(resp);
}

/// What a session does with one received frame: echo text with a fixed
/// prefix, echo binary as it came, answer ping with a pong carrying the
/// same payload, answer close with a close and stop, and let anything else
/// pass.
pub enum SessionAction {
    /// Write this frame and go on reading.
    Reply(Frame),
    /// Write this frame, then end the session.
    ReplyAndStop(Frame),
    /// Read the next frame.
    Continue,
}

/// Decide the session's answer to one frame.
pub fn session_step(frame: &Frame) -> (r: SessionAction)
    ensures
        match frame.opcode {
            OpCode::Text => match r {
                SessionAction::Reply(f) => {
                    &&& f.fin == true
                    &&& f.opcode == OpCode::Text
                    // "Echo: "
                    &&& f.payload@ == seq![69u8, 99u8, 104u8, 111u8, 58u8, 32u8] + frame.payload@
                },
                _ => false,
            },
            OpCode::Binary => match r {
                SessionAction::Reply(f) => f.fin == true && f.opcode == OpCode::Binary
                    && f.payload@ == frame.payload@,
                _ => false,
            },
            OpCode::Ping => match r {
                SessionAction::Reply(f) => f.fin == true && f.opcode == OpCode::Pong
                    && f.payload@ == frame.payload@,
                _ => false,
            },
            OpCode::Close => match r {
                SessionAction::ReplyAndStop(f) => f.fin == true && f.opcode == OpCode::Close
                    && f.payload@.len() == 0,
                _ => false,
            },
            _ => r is Continue,
        },
{
    match frame.opcode {
        OpCode::Text => {
            let prefix: [u8; 6] = [69, 99, 104, 111, 58, 32];  // "Echo: "
            let mut payload = vstd::slice::slice_to_vec(prefix.as_slice());
            payload.extend_from_slice(frame.payload.as_slice());
            proof {
                assert(payload@ =~= seq![69u8, 99u8, 104u8, 111u8, 58u8, 32u8]
                    + frame.payload@);
            }
            SessionAction::Reply(Frame { fin: true, opcode: OpCode::Text, payload })
        },
        OpCode::Binary => {
            SessionAction::Reply(
                Frame::binary(vstd::slice::slice_to_vec(frame.payload.as_slice())),
            )
        },
        OpCode::Ping => {
            SessionAction::Reply(
                Frame::pong(vstd::slice::slice_to_vec(frame.payload.as_slice())),
            )
        },
        OpCode::Close => SessionAction::ReplyAndStop(Frame::close()),
        _ => SessionAction::Continue,
    }
}

} // verus!
