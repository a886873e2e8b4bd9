//! HTTP response builder and serializer.
//!
//! A [`Response`] accumulates a status, an ordered header list and a body;
//! [`Response::write_to`] emits the full wire form in one pass. The
//! `Content-Length` header is computed from the body at serialization time,
//! so it always matches the body actually written, however the response was
//! mutated beforehand; [`lemma_content_length_round_trip`] proves that
//! reading the serialized bytes back recovers exactly the body length.

use vstd::prelude::*;
use crate::bytes::{CR, LF, SP, COLON, hdr_views, spec_trim, spec_trim_start, spec_trim_end,
    spec_starts_with, is_ascii_ws, spec_find_byte, lemma_find_byte_unique, lemma_trim_end_concat,
    find_byte, trim_end_bytes, trim_bytes, starts_with};
use crate::decimal::{spec_decimal, spec_parse_decimal, decimal_u64, parse_decimal_u64,
    lemma_decimal_round_trip, lemma_decimal_digits};
use crate::status::{Status, status_code, status_text_bytes};

verus! {

/// Bytes of `"HTTP/1.1 "`, the fixed start of every status line.
pub open spec fn http11_prefix() -> Seq<u8> {
    seq![72u8, 84u8, 84u8, 80u8, 47u8, 49u8, 46u8, 49u8, 32u8]
}

/// Bytes of the header name `"Content-Length"`.
pub open spec fn cl_name_bytes() -> Seq<u8> {
    seq![67u8, 111u8, 110u8, 116u8, 101u8, 110u8, 116u8, 45u8, 76u8, 101u8, 110u8, 103u8, 116u8, 104u8]
}

/// Bytes of `"Content-Length:"`, what a reader scans header lines for.
pub open spec fn cl_prefix() -> Seq<u8> {
    cl_name_bytes() + seq![COLON]
}

/// Bytes of the header name `"Connection"`.
pub open spec fn conn_name_bytes() -> Seq<u8> {
    seq![67u8, 111u8, 110u8, 110u8, 101u8, 99u8, 116u8, 105u8, 111u8, 110u8]
}

/// Bytes of `"close"`.
pub open spec fn conn_close_bytes() -> Seq<u8> {
    seq![99u8, 108u8, 111u8, 115u8, 101u8]
}

/// Bytes of the header name `"Server"`.
pub open spec fn server_name_bytes() -> Seq<u8> {
    seq![83u8, 101u8, 114u8, 118u8, 101u8, 114u8]
}

/// Bytes of the default `Server` header value.
pub open spec fn server_value_bytes() -> Seq<u8> {
    // "HyperServe-Rust/0.1.0"
    seq![72u8, 121u8, 112u8, 101u8, 114u8, 83u8, 101u8, 114u8, 118u8, 101u8, 45u8, 82u8, 117u8,
        115u8, 116u8, 47u8, 48u8, 46u8, 49u8, 46u8, 48u8]
}

/// Bytes of the header name `"Content-Type"`.
pub open spec fn ct_name_bytes() -> Seq<u8> {
    seq![67u8, 111u8, 110u8, 116u8, 101u8, 110u8, 116u8, 45u8, 84u8, 121u8, 112u8, 101u8]
}

/// Bytes of the default content type, `"text/plain; charset=utf-8"`.
pub open spec fn ct_value_bytes() -> Seq<u8> {
    seq![116u8, 101u8, 120u8, 116u8, 47u8, 112u8, 108u8, 97u8, 105u8, 110u8, 59u8, 32u8, 99u8,
        104u8, 97u8, 114u8, 115u8, 101u8, 116u8, 61u8, 117u8, 116u8, 102u8, 45u8, 56u8]
}

/// Bytes of `"application/json"`.
pub open spec fn ct_json_bytes() -> Seq<u8> {
    seq![97u8, 112u8, 112u8, 108u8, 105u8, 99u8, 97u8, 116u8, 105u8, 111u8, 110u8, 47u8, 106u8,
        115u8, 111u8, 110u8]
}

/// One serialized header line: `name: value` followed by CR LF.
pub open spec fn header_line(name: Seq<u8>, value: Seq<u8>) -> Seq<u8> {
    name + seq![COLON, SP] + value + seq![CR, LF]
}

/// The serialized header section: one line per entry, in order.
pub open spec fn headers_bytes(hs: Seq<(Seq<u8>, Seq<u8>)>) -> Seq<u8>
    decreases hs.len(),
{
    if hs.len() == 0 {
        Seq::empty()
    } else {
        header_line(hs[0].0, hs[0].1) + headers_bytes(hs.skip(1))
    }
}

/// The header section grows at its end when the list does.
pub proof fn lemma_headers_bytes_snoc(hs: Seq<(Seq<u8>, Seq<u8>)>)
    requires
        hs.len() > 0,
    ensures
        headers_bytes(hs) == headers_bytes(hs.drop_last()) + header_line(
            hs.last().0,
            hs.last().1,
        ),
    decreases hs.len(),
{
    if hs.len() == 1 {
        assert(hs.drop_last() =~= Seq::<(Seq<u8>, Seq<u8>)>::empty());
        assert(hs.skip(1) =~= Seq::<(Seq<u8>, Seq<u8>)>::empty());
        assert(headers_bytes(hs.drop_last()) + header_line(hs.last().0, hs.last().1)
            =~= header_line(hs[0].0, hs[0].1) + headers_bytes(hs.skip(1)));
    } else {
        let tail = hs.skip(1);
        lemma_headers_bytes_snoc(tail);
        assert(tail.drop_last() =~= hs.drop_last().skip(1));
        assert(hs.drop_last()[0] == hs[0]);
        assert(header_line(hs[0].0, hs[0].1) + (headers_bytes(tail.drop_last()) + header_line(
            tail.last().0,
            tail.last().1,
        )) =~= (header_line(hs[0].0, hs[0].1) + headers_bytes(hs.drop_last().skip(1)))
            + header_line(hs.last().0, hs.last().1));
    }
}

/// The status line of a status: `HTTP/1.1 <code> <text>` and CR LF.
pub open spec fn status_line_bytes(s: Status) -> Seq<u8> {
    http11_prefix() + spec_decimal(status_code(s) as nat) + seq![SP] + status_text_bytes(s)
        + seq![CR, LF]
}

/// An HTTP response: status, ordered headers, owned body.
pub struct Response {
    /// The status line's code.
    pub status: Status,
    /// Header entries in emission order; duplicates are emitted as given.
    pub headers: Vec<(Vec<u8>, Vec<u8>)>,
    /// The raw body bytes.
    pub body: Vec<u8>,
}

/// The full wire form of a response. `Content-Length` is derived from the
/// body here, at serialization, so it can never disagree with the body.
pub open spec fn spec_serialize(r: Response) -> Seq<u8> {
    status_line_bytes(r.status) + headers_bytes(hdr_views(r.headers@)) + header_line(
        cl_name_bytes(),
        spec_decimal(r.body@.len()),
    ) + header_line(conn_name_bytes(), conn_close_bytes()) + seq![CR, LF] + r.body@
}

/// A response reduced to its mathematical content: the status, the header
/// views in order, and the body bytes.
pub ghost struct RespModel {
    /// The status line's code.
    pub status: Status,
    /// Header entries in emission order.
    pub headers: Seq<(Seq<u8>, Seq<u8>)>,
    /// The raw body bytes.
    pub body: Seq<u8>,
}

/// The model of a response value.
pub open spec fn resp_model(r: Response) -> RespModel {
    RespModel { status: r.status, headers: hdr_views(r.headers@), body: r.body@ }
}

/// The model of the fixed `404 Not Found` response.
pub open spec fn model_not_found() -> RespModel {
    RespModel {
        status: Status::NotFound,
        headers: seq![
            (server_name_bytes(), server_value_bytes()),
            (ct_name_bytes(), ct_value_bytes()),
        ],
        // "404 Not Found"
        body: seq![52u8, 48u8, 52u8, 32u8, 78u8, 111u8, 116u8, 32u8, 70u8, 111u8, 117u8, 110u8,
            100u8],
    }
}

/// A header entry that serializes to exactly one well-formed line: no line
/// break in name or value, no colon in the name, and a name other than the
/// `Content-Length` the serializer itself appends.
pub open spec fn header_entry_wf(name: Seq<u8>, value: Seq<u8>) -> bool {
    &&& forall|j: int| 0 <= j < name.len() ==> name[j] != LF && name[j] != COLON
    &&& forall|j: int| 0 <= j < value.len() ==> value[j] != LF
    &&& name != cl_name_bytes()
}

/// Every entry of a header-view list is well formed.
pub open spec fn headers_wf(hs: Seq<(Seq<u8>, Seq<u8>)>) -> bool {
    forall|i: int| 0 <= i < hs.len() ==> #[trigger] header_entry_wf(hs[i].0, hs[i].1)
}

/// All header entries of `r` are well formed.
pub open spec fn resp_headers_wf(r: Response) -> bool {
    headers_wf(hdr_views(r.headers@))
}

/// `hs` with every entry named `name` removed, order otherwise kept.
pub open spec fn spec_remove_header(hs: Seq<(Seq<u8>, Seq<u8>)>, name: Seq<u8>) -> Seq<(
    Seq<u8>,
    Seq<u8>,
)>
    decreases hs.len(),
{
    if hs.len() == 0 {
        hs
    } else {
        let r = spec_remove_header(hs.drop_last(), name);
        if hs.last().0 == name {
            r
        } else {
            r.push(hs.last())
        }
    }
}

impl Response {
    /// A response with the given status, the default identifying headers,
    /// and an empty body.
    pub fn new(status: Status) -> (r: Response)
        ensures
            r.status == status,
            hdr_views(r.headers@) == seq![
                (server_name_bytes(), server_value_bytes()),
                (ct_name_bytes(), ct_value_bytes()),
            ],
            r.body@ == Seq::<u8>::empty(),
            resp_headers_wf(r),
    {
        let server_name: [u8; 6] = [83, 101, 114, 118, 101, 114];  // "Server"
        // "HyperServe-Rust/0.1.0"
        let server_value: [u8; 21] = [
            72, 121, 112, 101, 114, 83, 101, 114, 118, 101, 45, 82, 117, 115, 116, 47, 48, 46, 49,
            46, 48,
        ];
        // "Content-Type"
        let ct_name: [u8; 12] = [67, 111, 110, 116, 101, 110, 116, 45, 84, 121, 112, 101];
        // "text/plain; charset=utf-8"
        let ct_value: [u8; 25] = [
            116, 101, 120, 116, 47, 112, 108, 97, 105, 110, 59, 32, 99, 104, 97, 114, 115, 101,
            116, 61, 117, 116, 102, 45, 56,
        ];
        let mut headers: Vec<(Vec<u8>, Vec<u8>)> = Vec::new();
        headers.push((
            vstd::slice::slice_to_vec(server_name.as_slice()),
            vstd::slice::slice_to_vec(server_value.as_slice()),
        ));
        headers.push((
            vstd::slice::slice_to_vec(ct_name.as_slice()),
            vstd::slice::slice_to_vec(ct_value.as_slice()),
        ));
        let r = Response { status, headers, body: Vec::new() };
        proof {
            assert(hdr_views(r.headers@) =~= seq![
                (server_name_bytes(), server_value_bytes()),
                (ct_name_bytes(), ct_value_bytes()),
            ]);
            assert(server_name_bytes() =~= server_name@);
            assert(server_value_bytes() =~= server_value@);
            assert(ct_name_bytes() =~= ct_name@);
            assert(ct_value_bytes() =~= ct_value@);
            assert(r.body@ =~= Seq::<u8>::empty());
            let hv = hdr_views(r.headers@);
            assert forall|i: int| 0 <= i < hv.len() implies #[trigger] header_entry_wf(
                hv[i].0,
                hv[i].1,
            ) by {
                assert(hv[i].0 != cl_name_bytes()) by {
                    assert(hv[i].0.len() != cl_name_bytes().len());
                }
            }
        }
        r
    }

    /// A `200 OK` response.
    pub fn ok() -> (r: Response)
        ensures
            r.status == Status::OK,
            hdr_views(r.headers@) == seq![
                (server_name_bytes(), server_value_bytes()),
                (ct_name_bytes(), ct_value_bytes()),
            ],
            r.body@ == Seq::<u8>::empty(),
            resp_headers_wf(r),
    {
        Response::new(Status::OK)
    }

    /// A `404 Not Found` response with its fixed textual body.
    pub fn not_found() -> (r: Response)
        ensures
            r.status == Status::NotFound,
            hdr_views(r.headers@) == seq![
                (server_name_bytes(), server_value_bytes()),
                (ct_name_bytes(), ct_value_bytes()),
            ],
            r.body@ == seq![52u8, 48u8, 52u8, 32u8, 78u8, 111u8, 116u8, 32u8, 70u8, 111u8, 117u8,
                110u8, 100u8],  // "404 Not Found"
            resp_headers_wf(r),
    {
        let body: [u8; 13] = [52, 48, 52, 32, 78, 111, 116, 32, 70, 111, 117, 110, 100];
        let r = Response::new(Status::NotFound).body(vstd::slice::slice_to_vec(body.as_slice()));
        proof {
            assert(r.body@ =~= seq![52u8, 48u8, 52u8, 32u8, 78u8, 111u8, 116u8, 32u8, 70u8, 111u8,
                117u8, 110u8, 100u8]);
        }
        r
    }

    /// A `500 Internal Server Error` response with its fixed textual body.
    pub fn internal_error() -> (r: Response)
        ensures
            r.status == Status::InternalServerError,
            hdr_views(r.headers@) == seq![
                (server_name_bytes(), server_value_bytes()),
                (ct_name_bytes(), ct_value_bytes()),
            ],
            // "Internal Server Error"
            r.body@ == seq![73u8, 110u8, 116u8, 101u8, 114u8, 110u8, 97u8, 108u8, 32u8, 83u8,
                101u8, 114u8, 118u8, 101u8, 114u8, 32u8, 69u8, 114u8, 114u8, 111u8, 114u8],
            resp_headers_wf(r),
    {
        let body: [u8; 21] = [
            73, 110, 116, 101, 114, 110, 97, 108, 32, 83, 101, 114, 118, 101, 114, 32, 69, 114,
            114, 111, 114,
        ];
        let r = Response::new(Status::InternalServerError).body(
            vstd::slice::slice_to_vec(body.as_slice()),
        );
        proof {
            assert(r.body@ =~= seq![73u8, 110u8, 116u8, 101u8, 114u8, 110u8, 97u8, 108u8, 32u8,
                83u8, 101u8, 114u8, 118u8, 101u8, 114u8, 32u8, 69u8, 114u8, 114u8, 111u8, 114u8]);
        }
        r
    }

    /// Set a header, replacing any earlier entries with the same name and
    /// appending the new entry at the end.
    pub fn header(self, name: Vec<u8>, value: Vec<u8>) -> (r: Response)
        ensures
            r.status == self.status,
            r.body@ == self.body@,
            hdr_views(r.headers@) == spec_remove_header(hdr_views(self.headers@), name@).push(
                (name@, value@),
            ),
    {
        let Response { status, headers, body } = self;
        let mut kept: Vec<(Vec<u8>, Vec<u8>)> = Vec::new();
        let n = headers.len();
        let mut i: usize = 0;
        while i < n
            invariant
                i <= n == headers.len(),
                hdr_views(kept@) == spec_remove_header(hdr_views(headers@).take(i as int), name@),
            decreases n - i,
        {
            proof {
                assert(hdr_views(headers@).take(i + 1).drop_last() =~= hdr_views(
                    headers@,
                ).take(i as int));
                assert(hdr_views(headers@).take(i + 1).last() == (headers@[i as int].0@,
                    headers@[i as int].1@));
            }
            let keep = !crate::bytes::bytes_eq(headers[i].0.as_slice(), name.as_slice());
            if keep {
                let pair = (
                    vstd::slice::slice_to_vec(headers[i].0.as_slice()),
                    vstd::slice::slice_to_vec(headers[i].1.as_slice()),
                );
                kept.push(pair);
                proof {
                    assert(hdr_views(kept@) =~= spec_remove_header(
                        hdr_views(headers@).take(i + 1),
                        name@,
                    ));
                }
            } else {
                proof {
                    assert(hdr_views(kept@) =~= spec_remove_header(
                        hdr_views(headers@).take(i + 1),
                        name@,
                    ));
                }
            }
            i += 1;
        }
        proof {
            assert(hdr_views(headers@).take(n as int) =~= hdr_views(headers@));
        }
        kept.push((name, value));
        let r = Response { status, headers: kept, body };
        proof {
            assert(hdr_views(r.headers@) =~= spec_remove_header(
                hdr_views(headers@),
                name@,
            ).push((name@, value@)));
        }
        r
    }

    /// Append a header entry without replacing anything; middleware uses this
    /// to stack several values under one name.
    pub fn add_header(&mut self, name: Vec<u8>, value: Vec<u8>)
        ensures
            final(self).status == old(self).status,
            final(self).body@ == old(self).body@,
            hdr_views(final(self).headers@) == hdr_views(old(self).headers@).push((name@, value@)),
    {
        let ghost before = hdr_views(self.headers@);
        self.headers.push((name, value));
        proof {
            assert(hdr_views(self.headers@) =~= before.push((
                self.headers@.last().0@,
                self.headers@.last().1@,
            )));
        }
    }

    /// Replace the body.
    pub fn body(self, body: Vec<u8>) -> (r: Response)
        ensures
            r.status == self.status,
            hdr_views(r.headers@) == hdr_views(self.headers@),
            r.body@ == body@,
    {
        Response { status: self.status, headers: self.headers, body }
    }

    /// Install an already-serialized JSON body: on `Some`, the body becomes
    /// the given bytes and the content type becomes `application/json`
    /// (replacing earlier `Content-Type` entries); on `None`, the response
    /// degrades to a `500` with a fixed textual body.
    pub fn json(self, serialized: Option<Vec<u8>>) -> (r: Response)
        ensures
            match serialized {
                Some(bytes) => {
                    &&& r.status == self.status
                    &&& r.body@ == bytes@
                    &&& hdr_views(r.headers@) == spec_remove_header(
                        hdr_views(self.headers@),
                        ct_name_bytes(),
                    ).push((ct_name_bytes(), ct_json_bytes()))
                },
                None => {
                    &&& r.status == Status::InternalServerError
                    &&& hdr_views(r.headers@) == hdr_views(self.headers@)
                    // "JSON serialization error"
                    &&& r.body@ == seq![74u8, 83u8, 79u8, 78u8, 32u8, 115u8, 101u8, 114u8, 105u8,
                        97u8, 108u8, 105u8, 122u8, 97u8, 116u8, 105u8, 111u8, 110u8, 32u8, 101u8,
                        114u8, 114u8, 111u8, 114u8]
                },
            },
    {
        match serialized {
            Some(bytes) => {
                // "Content-Type"
                let ct_name: [u8; 12] = [67, 111, 110, 116, 101, 110, 116, 45, 84, 121, 112, 101];
                // "application/json"
                let ct_json: [u8; 16] = [
                    97, 112, 112, 108, 105, 99, 97, 116, 105, 111, 110, 47, 106, 115, 111, 110,
                ];
                proof {
                    assert(ct_name@ =~= ct_name_bytes());
                    assert(ct_json@ =~= ct_json_bytes());
                }
                self.header(
                    vstd::slice::slice_to_vec(ct_name.as_slice()),
                    vstd::slice::slice_to_vec(ct_json.as_slice()),
                ).body(bytes)
            },
            None => {
                // "JSON serialization error"
                let body: [u8; 24] = [
                    74, 83, 79, 78, 32, 115, 101, 114, 105, 97, 108, 105, 122, 97, 116, 105, 111,
                    110, 32, 101, 114, 114, 111, 114,
                ];
                let r = Response {
                    status: Status::InternalServerError,
                    headers: self.headers,
                    body: vstd::slice::slice_to_vec(body.as_slice()),
                };
                proof {
                    assert(r.body@ =~= seq![74u8, 83u8, 79u8, 78u8, 32u8, 115u8, 101u8, 114u8,
                        105u8, 97u8, 108u8, 105u8, 122u8, 97u8, 116u8, 105u8, 111u8, 110u8, 32u8,
                        101u8, 114u8, 114u8, 111u8, 114u8]);
                }
                r
            },
        }
    }

    /// Serialize the response onto the end of `out`: status line, headers in
    /// order, a `Content-Length` computed from the body, `Connection: close`,
    /// a blank line, then the body.
    pub fn write_to(&self, out: &mut Vec<u8>)
        ensures
            final(out)@ == old(out)@ + spec_serialize(*self),
    {
        let ghost start = out@;
        // Status line.
        let http11: [u8; 9] = [72, 84, 84, 80, 47, 49, 46, 49, 32];  // "HTTP/1.1 "
        out.extend_from_slice(http11.as_slice());
        let code = decimal_u64(self.status.code() as u64);
        out.extend_from_slice(code.as_slice());
        out.push(SP);
        let text = self.status.text_vec();
        out.extend_from_slice(text.as_slice());
        out.push(CR);
        out.push(LF);
        proof {
            assert(out@ =~= start + status_line_bytes(self.status));
        }
        let ghost after_status = out@;
        // Header section.
        let n = self.headers.len();
        let mut i: usize = 0;
        while i < n
            invariant
                i <= n == self.headers.len(),
                out@ == after_status + headers_bytes(hdr_views(self.headers@).take(i as int)),
            decreases n - i,
        {
            let ghost before_line = out@;
            out.extend_from_slice(self.headers[i].0.as_slice());
            out.push(COLON);
            out.push(SP);
            out.extend_from_slice(self.headers[i].1.as_slice());
            out.push(CR);
            out.push(LF);
            proof {
                let hv = hdr_views(self.headers@);
                assert(out@ =~= before_line + header_line(hv[i as int].0, hv[i as int].1));
                lemma_headers_bytes_snoc(hv.take(i + 1));
                assert(hv.take(i + 1).drop_last() =~= hv.take(i as int));
                assert(hv.take(i + 1).last() == hv[i as int]);
                assert(out@ =~= after_status + headers_bytes(hv.take(i + 1)));
            }
            i += 1;
        }
        proof {
            assert(hdr_views(self.headers@).take(n as int) =~= hdr_views(self.headers@));
        }
        let ghost after_headers = out@;
        // Content-Length, computed from the body now.
        let cl_name: [u8; 14] = [67, 111, 110, 116, 101, 110, 116, 45, 76, 101, 110, 103, 116,
            104];  // "Content-Length"
        out.extend_from_slice(cl_name.as_slice());
        out.push(COLON);
        out.push(SP);
        let len_digits = decimal_u64(self.body.len() as u64);
        out.extend_from_slice(len_digits.as_slice());
        out.push(CR);
        out.push(LF);
        proof {
            assert(out@ =~= after_headers + header_line(
                cl_name_bytes(),
                spec_decimal(self.body@.len()),
            ));
        }
        let ghost after_cl = out@;
        // Connection policy: one exchange per connection.
        let conn_name: [u8; 10] = [67, 111, 110, 110, 101, 99, 116, 105, 111, 110];  // "Connection"
        let conn_close: [u8; 5] = [99, 108, 111, 115, 101];  // "close"
        out.extend_from_slice(conn_name.as_slice());
        out.push(COLON);
        out.push(SP);
        out.extend_from_slice(conn_close.as_slice());
        out.push(CR);
        out.push(LF);
        // Blank line, then the body.
        out.push(CR);
        out.push(LF);
        out.extend_from_slice(self.body.as_slice());
        proof {
            assert(out@ =~= after_cl + header_line(conn_name_bytes(), conn_close_bytes())
                + seq![CR, LF] + self.body@);
            assert(out@ =~= start + spec_serialize(*self));
        }
    }
}

/// The `Content-Length` a reader of `bytes` sees: header lines are read in
/// order up to the first blank line, and the value of the first line whose
/// trimmed form starts with `Content-Length:` is read as a decimal.
pub open spec fn spec_read_content_length(bytes: Seq<u8>) -> Option<nat>
    decreases bytes.len(),
{
    if bytes.len() == 0 {
        None
    } else {
        match spec_find_byte(bytes, LF) {
            Some(i) => if 0 <= i < bytes.len() {
                let t = spec_trim_end(bytes.take(i));
                if t.len() == 0 {
                    None
                } else if spec_starts_with(t, cl_prefix()) {
                    spec_parse_decimal(spec_trim(t.skip(cl_prefix().len() as int)))
                } else {
                    spec_read_content_length(bytes.skip(i + 1))
                }
            } else {
                None
            },
            None => {
                let t = spec_trim_end(bytes);
                if t.len() == 0 {
                    None
                } else if spec_starts_with(t, cl_prefix()) {
                    spec_parse_decimal(spec_trim(t.skip(cl_prefix().len() as int)))
                } else {
                    None
                }
            },
        }
    }
}

/// Read the `Content-Length` out of a serialized message.
pub fn content_length_of(bytes: &[u8]) -> (r: Option<u64>)
    ensures
        match spec_read_content_length(bytes@) {
            Some(v) => r == if v <= u64::MAX {
                Some(v as u64)
            } else {
                None::<u64>
            },
            None => r is None,
        },
{
    // "Content-Length:"
    let prefix: [u8; 15] = [67, 111, 110, 116, 101, 110, 116, 45, 76, 101, 110, 103, 116, 104,
        58];
    proof {
        assert(prefix@ =~= cl_prefix());
    }
    proof {
        assert(bytes@.skip(0) =~= bytes@);
    }
    let mut o: usize = 0;
    while o < bytes.len()
        invariant
            o <= bytes.len(),
            prefix@ == cl_prefix(),
            spec_read_content_length(bytes@) == spec_read_content_length(
                bytes@.skip(o as int),
            ),
        decreases bytes.len() - o,
    {
        let tail = &bytes[o..bytes.len()];
        proof {
            assert(tail@ =~= bytes@.skip(o as int));
        }
        match find_byte(tail, LF) {
            Some(i) => {
                proof {
                    crate::bytes::lemma_find_byte(tail@, LF);
                }
                let t = trim_end_bytes(tail, i);
                proof {
                    assert(tail@.take(i as int) =~= bytes@.skip(o as int).take(i as int));
                }
                if t.len() == 0 {
                    return None;
                } else if starts_with(t.as_slice(), prefix.as_slice()) {
                    let rest = trim_bytes(&t.as_slice()[15..t.len()]);
                    proof {
                        assert(t@.subrange(15, t@.len() as int) =~= t@.skip(15));
                    }
                    return parse_decimal_u64(rest.as_slice());
                } else {
                    proof {
                        assert(bytes@.skip(o as int).skip(i + 1) =~= bytes@.skip(
                            o as int + i + 1,
                        ));
                    }
                    o = o + i + 1;
                }
            },
            None => {
                let t = trim_end_bytes(tail, tail.len());
                proof {
                    assert(tail@.take(tail@.len() as int) =~= tail@);
                }
                if t.len() == 0 {
                    return None;
                } else if starts_with(t.as_slice(), prefix.as_slice()) {
                    let rest = trim_bytes(&t.as_slice()[15..t.len()]);
                    proof {
                        assert(t@.subrange(15, t@.len() as int) =~= t@.skip(15));
                    }
                    return parse_decimal_u64(rest.as_slice());
                } else {
                    return None;
                }
            },
        }
    }
    proof {
        assert(bytes@.skip(bytes@.len() as int) =~= Seq::<u8>::empty());
    }
    None
}

/// How the reader steps over one line: reading `line + LF + rest` handles
/// the line, and goes on to `rest` when the line is neither blank nor a
/// `Content-Length` line.
proof fn lemma_read_line_step(line: Seq<u8>, rest: Seq<u8>)
    requires
        forall|j: int| 0 <= j < line.len() ==> line[j] != LF,
    ensures
        spec_read_content_length(line + seq![LF] + rest) == ({
            let t = spec_trim_end(line);
            if t.len() == 0 {
                None
            } else if spec_starts_with(t, cl_prefix()) {
                spec_parse_decimal(spec_trim(t.skip(cl_prefix().len() as int)))
            } else {
                spec_read_content_length(rest)
            }
        }),
{
    let whole = line + seq![LF] + rest;
    assert(whole[line.len() as int] == LF);
    lemma_find_byte_unique(whole, LF, line.len() as int);
    assert(whole.take(line.len() as int) =~= line);
    assert(whole.skip(line.len() as int + 1) =~= rest);
}

/// Trimming a header line keeps the name and its colon, so a line whose name
/// is not `Content-Length` never reads as one.
proof fn lemma_header_line_not_cl(name: Seq<u8>, value: Seq<u8>)
    requires
        forall|j: int| 0 <= j < name.len() ==> name[j] != COLON,
        name != cl_name_bytes(),
    ensures
        ({
            let t = spec_trim_end(name + seq![COLON, SP] + value + seq![CR]);
            t.len() > 0 && !spec_starts_with(t, cl_prefix())
        }),
{
    let a = name + seq![COLON];
    let b = seq![SP] + value + seq![CR];
    assert(name + seq![COLON, SP] + value + seq![CR] =~= a + b);
    lemma_trim_end_concat(a, b);
    assert(spec_trim_end(a) == a) by {
        assert(a[a.len() - 1] == COLON);
        assert(!is_ascii_ws(COLON));
    }
    let t = spec_trim_end(a + b);
    // Either way `t` extends `name + [COLON]`.
    assert(t.len() >= a.len());
    assert(forall|j: int| 0 <= j < a.len() ==> t[j] == a[j]);
    assert(t.len() > 0);
    if spec_starts_with(t, cl_prefix()) {
        let p = cl_prefix();
        assert(forall|j: int| 0 <= j < p.len() ==> t[j] == t.subrange(0, p.len() as int)[j]);
        assert(forall|j: int| 0 <= j < p.len() ==> t[j] == p[j]);
        if name.len() < 14 {
            assert(t[name.len() as int] == COLON);
            assert(p[name.len() as int] == cl_name_bytes()[name.len() as int]);
            assert(cl_name_bytes()[name.len() as int] != COLON);
        } else if name.len() == 14 {
            assert(forall|j: int| 0 <= j < 14 ==> name[j] == t[j]);
            assert(name =~= cl_name_bytes());
        } else {
            assert(t[14] == name[14]);
            assert(p[14] == COLON);
        }
    }
}

/// The serializer's own `Content-Length` line reads back as the number it
/// holds.
proof fn lemma_cl_line_reads(n: nat)
    ensures
        ({
            let t = spec_trim_end(cl_name_bytes() + seq![COLON, SP] + spec_decimal(n) + seq![CR]);
            &&& t.len() > 0
            &&& spec_starts_with(t, cl_prefix())
            &&& spec_parse_decimal(spec_trim(t.skip(cl_prefix().len() as int))) == Some(n)
        }),
{
    let digits = spec_decimal(n);
    lemma_decimal_digits(n);
    let a = cl_name_bytes() + seq![COLON];
    let mid = seq![SP] + digits;
    assert(cl_name_bytes() + seq![COLON, SP] + digits + seq![CR] =~= a + (mid + seq![CR]));
    lemma_trim_end_concat(a, mid + seq![CR]);
    lemma_trim_end_concat(mid, seq![CR]);
    assert(spec_trim_end(seq![CR]) =~= Seq::<u8>::empty()) by {
        assert(seq![CR].take(0) =~= Seq::<u8>::empty());
        assert(spec_trim_end(Seq::<u8>::empty()).len() == 0);
    }
    assert(spec_trim_end(mid) == mid) by {
        assert(mid[mid.len() - 1] == digits[digits.len() - 1]);
        assert(48 <= digits[digits.len() - 1] <= 57);
    }
    let t = spec_trim_end(a + (mid + seq![CR]));
    assert(t == a + mid);
    assert(spec_starts_with(t, cl_prefix())) by {
        assert(t.subrange(0, cl_prefix().len() as int) =~= cl_prefix());
    }
    assert(t.skip(cl_prefix().len() as int) =~= mid);
    // Trimming the value part strips the leading space and leaves the digits.
    assert(spec_trim_end(mid) == mid);
    assert(spec_trim_start(mid) =~= spec_trim_start(digits)) by {
        assert(mid.skip(1) =~= digits);
    }
    assert(spec_trim_start(digits) == digits) by {
        assert(48 <= digits[0] <= 57);
    }
    lemma_decimal_round_trip(n);
    assert(spec_trim(mid) == digits);
}

/// Reading past a whole well-formed header section changes nothing.
proof fn lemma_read_skips_headers(hs: Seq<(Seq<u8>, Seq<u8>)>, rest: Seq<u8>)
    requires
        headers_wf(hs),
    ensures
        spec_read_content_length(headers_bytes(hs) + rest) == spec_read_content_length(rest),
    decreases hs.len(),
{
    if hs.len() == 0 {
        assert(headers_bytes(hs) + rest =~= rest);
    } else {
        let name = hs[0].0;
        let value = hs[0].1;
        assert(header_entry_wf(name, value));
        let line = name + seq![COLON, SP] + value + seq![CR];
        let tail_bytes = headers_bytes(hs.skip(1)) + rest;
        assert(headers_bytes(hs) + rest =~= line + seq![LF] + tail_bytes);
        assert(forall|j: int| 0 <= j < line.len() ==> line[j] != LF) by {
            assert(forall|j: int| 0 <= j < name.len() ==> line[j] == name[j]);
            assert(line[name.len() as int] == COLON);
            assert(line[name.len() as int + 1] == SP);
            assert(forall|j: int| 0 <= j < value.len() ==> line[name.len() + 2 + j] == value[j]);
            assert(line[line.len() - 1] == CR);
        }
        lemma_read_line_step(line, tail_bytes);
        lemma_header_line_not_cl(name, value);
        assert(forall|i: int| 0 <= i < hs.skip(1).len() ==> hs.skip(1)[i] == hs[i + 1]);
        lemma_read_skips_headers(hs.skip(1), rest);
    }
}

/// The status line never reads as a `Content-Length` line.
proof fn lemma_read_skips_status_line(s: Status, rest: Seq<u8>)
    ensures
        spec_read_content_length(status_line_bytes(s) + rest) == spec_read_content_length(rest),
{
    let digits = spec_decimal(status_code(s) as nat);
    lemma_decimal_digits(status_code(s) as nat);
    let line = http11_prefix() + digits + seq![SP] + status_text_bytes(s) + seq![CR];
    assert(status_line_bytes(s) + rest =~= line + seq![LF] + rest);
    assert(forall|j: int| 0 <= j < line.len() ==> line[j] != LF) by {
        assert(forall|j: int| 0 <= j < 9 ==> line[j] == http11_prefix()[j]);
        assert(forall|j: int| 0 <= j < digits.len() ==> line[9 + j] == digits[j]);
        assert(line[9 + digits.len() as int] == SP);
        assert(forall|j: int| 0 <= j < status_text_bytes(s).len() ==> line[10 + digits.len() + j]
            == status_text_bytes(s)[j]);
        assert(line[line.len() - 1] == CR);
        assert(forall|j: int| 0 <= j < status_text_bytes(s).len() ==> status_text_bytes(s)[j]
            != LF);
    }
    lemma_read_line_step(line, rest);
    let t = spec_trim_end(line);
    let a = seq![line[0]];
    assert(line =~= a + line.skip(1));
    lemma_trim_end_concat(a, line.skip(1));
    assert(spec_trim_end(a) == a) by {
        assert(a[0] == 72u8);
        assert(!is_ascii_ws(72u8));
    }
    assert(t.len() > 0 && t[0] == 72u8);
    assert(!spec_starts_with(t, cl_prefix())) by {
        if spec_starts_with(t, cl_prefix()) {
            assert(t.subrange(0, cl_prefix().len() as int)[0] == cl_prefix()[0]);
            assert(t[0] == 67u8);
        }
    }
}

/// Reading `Content-Length` back out of a serialized response yields exactly
/// the length of the body that was written, whatever headers and body the
/// response was given before serialization.
pub proof fn lemma_content_length_round_trip(r: Response)
    requires
        resp_headers_wf(r),
    ensures
        spec_read_content_length(spec_serialize(r)) == Some(r.body@.len()),
{
    let hv = hdr_views(r.headers@);
    let cl_line = header_line(cl_name_bytes(), spec_decimal(r.body@.len()));
    let tail2 = cl_line + header_line(conn_name_bytes(), conn_close_bytes()) + seq![CR, LF]
        + r.body@;
    assert(spec_serialize(r) =~= status_line_bytes(r.status) + (headers_bytes(hv) + tail2));
    lemma_read_skips_status_line(r.status, headers_bytes(hv) + tail2);
    lemma_read_skips_headers(hv, tail2);
    // The Content-Length line itself.
    let line = cl_name_bytes() + seq![COLON, SP] + spec_decimal(r.body@.len()) + seq![CR];
    let after = header_line(conn_name_bytes(), conn_close_bytes()) + seq![CR, LF] + r.body@;
    assert(tail2 =~= line + seq![LF] + after);
    lemma_decimal_digits(r.body@.len());
    assert(forall|j: int| 0 <= j < line.len() ==> line[j] != LF) by {
        let digits = spec_decimal(r.body@.len());
        assert(forall|j: int| 0 <= j < 14 ==> line[j] == cl_name_bytes()[j]);
        assert(line[14] == COLON);
        assert(line[15] == SP);
        assert(forall|j: int| 0 <= j < digits.len() ==> line[16 + j] == digits[j]);
        assert(line[line.len() - 1] == CR);
    }
    lemma_read_line_step(line, after);
    lemma_cl_line_reads(r.body@.len());
}

} // verus!
