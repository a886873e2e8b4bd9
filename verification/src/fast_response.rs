//! A one-pass response writer for hot paths: status line, headers and body
//! are appended to a single buffer in order, with the blank line and the
//! `Content-Length` emitted the moment the body arrives.

use vstd::prelude::*;
use crate::bytes::{CR, LF, SP, COLON};
use crate::decimal::{spec_decimal, decimal_u64};
use crate::fast_buffer::FastBuffer;

verus! {

/// The reason phrase for a numeric code, as bytes; codes outside the known
/// set read `Unknown`.
pub open spec fn spec_status_text(code: u16) -> Seq<u8> {
    if code == 200 {
        seq![79u8, 75u8]  // "OK"
    } else if code == 201 {
        seq![67u8, 114u8, 101u8, 97u8, 116u8, 101u8, 100u8]  // "Created"
    } else if code == 204 {
        seq![78u8, 111u8, 32u8, 67u8, 111u8, 110u8, 116u8, 101u8, 110u8, 116u8]  // "No Content"
    } else if code == 400 {
        seq![66u8, 97u8, 100u8, 32u8, 82u8, 101u8, 113u8, 117u8, 101u8, 115u8, 116u8]  // "Bad Request"
    } else if code == 401 {
        // "Unauthorized"
        seq![85u8, 110u8, 97u8, 117u8, 116u8, 104u8, 111u8, 114u8, 105u8, 122u8, 101u8, 100u8]
    } else if code == 403 {
        seq![70u8, 111u8, 114u8, 98u8, 105u8, 100u8, 100u8, 101u8, 110u8]  // "Forbidden"
    } else if code == 404 {
        seq![78u8, 111u8, 116u8, 32u8, 70u8, 111u8, 117u8, 110u8, 100u8]  // "Not Found"
    } else if code == 405 {
        // "Method Not Allowed"
        seq![77u8, 101u8, 116u8, 104u8, 111u8, 100u8, 32u8, 78u8, 111u8, 116u8, 32u8, 65u8,
            108u8, 108u8, 111u8, 119u8, 101u8, 100u8]
    } else if code == 429 {
        // "Too Many Requests"
        seq![84u8, 111u8, 111u8, 32u8, 77u8, 97u8, 110u8, 121u8, 32u8, 82u8, 101u8, 113u8, 117u8,
            101u8, 115u8, 116u8, 115u8]
    } else if code == 500 {
        // "Internal Server Error"
        seq![73u8, 110u8, 116u8, 101u8, 114u8, 110u8, 97u8, 108u8, 32u8, 83u8, 101u8, 114u8,
            118u8, 101u8, 114u8, 32u8, 69u8, 114u8, 114u8, 111u8, 114u8]
    } else {
        seq![85u8, 110u8, 107u8, 110u8, 111u8, 119u8, 110u8]  // "Unknown"
    }
}

/// The reason phrase for a numeric code, for display.
pub fn status_text(code: u16) -> &'static str {
    if code == 200 {
        "OK"
    } else if code == 201 {
        "Created"
    } else if code == 204 {
        "No Content"
    } else if code == 400 {
        "Bad Request"
    } else if code == 401 {
        "Unauthorized"
    } else if code == 403 {
        "Forbidden"
    } else if code == 404 {
        "Not Found"
    } else if code == 405 {
        "Method Not Allowed"
    } else if code == 429 {
        "Too Many Requests"
    } else if code == 500 {
        "Internal Server Error"
    } else {
        "Unknown"
    }
}

/// The reason phrase for a numeric code, as owned bytes.
fn status_text_vec(code: u16) -> (r: Vec<u8>)
    ensures
        r@ == spec_status_text(code),
{
    let s: &[u8] = if code == 200 {
        &[79, 75]
    } else if code == 201 {
        &[67, 114, 101, 97, 116, 101, 100]
    } else if code == 204 {
        &[78, 111, 32, 67, 111, 110, 116, 101, 110, 116]
    } else if code == 400 {
        &[66, 97, 100, 32, 82, 101, 113, 117, 101, 115, 116]
    } else if code == 401 {
        &[85, 110, 97, 117, 116, 104, 111, 114, 105, 122, 101, 100]
    } else if code == 403 {
        &[70, 111, 114, 98, 105, 100, 100, 101, 110]
    } else if code == 404 {
        &[78, 111, 116, 32, 70, 111, 117, 110, 100]
    } else if code == 405 {
        &[77, 101, 116, 104, 111, 100, 32, 78, 111, 116, 32, 65, 108, 108, 111, 119, 101, 100]
    } else if code == 429 {
        &[84, 111, 111, 32, 77, 97, 110, 121, 32, 82, 101, 113, 117, 101, 115, 116, 115]
    } else if code == 500 {
        &[73, 110, 116, 101, 114, 110, 97, 108, 32, 83, 101, 114, 118, 101, 114, 32, 69, 114,
            114, 111, 114]
    } else {
        &[85, 110, 107, 110, 111, 119, 110]
    };
    let r = vstd::slice::slice_to_vec(s);
    proof {
        assert(r@ =~= spec_status_text(code));
    }
    r
}

/// A status line for a numeric code.
pub open spec fn spec_status_line(code: u16) -> Seq<u8> {
    // "HTTP/1.1 "
    seq![72u8, 84u8, 84u8, 80u8, 47u8, 49u8, 46u8, 49u8, 32u8] + spec_decimal(code as nat)
        + seq![SP] + spec_status_text(code) + seq![CR, LF]
}

/// A header line.
pub open spec fn spec_fast_header(name: Seq<u8>, value: Seq<u8>) -> Seq<u8> {
    name + seq![COLON, SP] + value + seq![CR, LF]
}

/// The one-pass response writer.
pub struct FastResponse {
    /// Everything written so far, in wire order.
    pub buffer: FastBuffer,
    /// Whether the status line is down; only the first status call writes.
    pub status_written: bool,
    /// Whether the blank line is down; headers are refused after it.
    pub headers_done: bool,
}

impl FastResponse {
    /// A writer with nothing written.
    pub fn new() -> (r: FastResponse)
        ensures
            r.buffer.data@.len() == 0,
            !r.status_written,
            !r.headers_done,
    {
        FastResponse { buffer: FastBuffer::new(), status_written: false, headers_done: false }
    }

    /// Write the status line, once: later calls change nothing.
    pub fn status(&mut self, code: u16)
        ensures
            final(self).headers_done == old(self).headers_done,
            final(self).status_written,
            final(self).buffer.data@ == if old(self).status_written {
                old(self).buffer.data@
            } else {
                old(self).buffer.data@ + spec_status_line(code)
            },
    {
        if self.status_written {
            return;
        }
        let http11: [u8; 9] = [72, 84, 84, 80, 47, 49, 46, 49, 32];  // "HTTP/1.1 "
        self.buffer.write_all(http11.as_slice());
        let digits = decimal_u64(code as u64);
        self.buffer.write_all(digits.as_slice());
        let sp: [u8; 1] = [SP];
        self.buffer.write_all(sp.as_slice());
        let text = status_text_vec(code);
        self.buffer.write_all(text.as_slice());
        let crlf: [u8; 2] = [CR, LF];
        self.buffer.write_all(crlf.as_slice());
        self.status_written = true;
        proof {
            assert(self.buffer.data@ =~= old(self).buffer.data@ + spec_status_line(code));
        }
    }

    /// Write one header line, unless the header section is already closed.
    pub fn header(&mut self, name: &[u8], value: &[u8])
        ensures
            final(self).status_written == old(self).status_written,
            final(self).headers_done == old(self).headers_done,
            final(self).buffer.data@ == if old(self).headers_done {
                old(self).buffer.data@
            } else {
                old(self).buffer.data@ + spec_fast_header(name@, value@)
            },
    {
        if self.headers_done {
            return;
        }
        self.buffer.write_all(name);
        let sep: [u8; 2] = [COLON, SP];
        self.buffer.write_all(sep.as_slice());
        self.buffer.write_all(value);
        let crlf: [u8; 2] = [CR, LF];
        self.buffer.write_all(crlf.as_slice());
        proof {
            assert(self.buffer.data@ =~= old(self).buffer.data@ + spec_fast_header(
                name@,
                value@,
            ));
        }
    }

    /// Write a `Content-Length` header for `len`, unless the header
    /// section is already closed.
    pub fn content_length(&mut self, len: usize)
        ensures
            final(self).status_written == old(self).status_written,
            final(self).headers_done == old(self).headers_done,
            final(self).buffer.data@ == if old(self).headers_done {
                old(self).buffer.data@
            } else {
                old(self).buffer.data@ + spec_fast_header(
                    // "Content-Length"
                    seq![67u8, 111u8, 110u8, 116u8, 101u8, 110u8, 116u8, 45u8, 76u8, 101u8,
                        110u8, 103u8, 116u8, 104u8],
                    spec_decimal(len as nat),
                )
            },
    {
        if self.headers_done {
            return;
        }
        // "Content-Length"
        let cl: [u8; 14] = [67, 111, 110, 116, 101, 110, 116, 45, 76, 101, 110, 103, 116, 104];
        let digits = decimal_u64(len as u64);
        self.header(cl.as_slice(), digits.as_slice());
        proof {
            assert(cl@ =~= seq![67u8, 111u8, 110u8, 116u8, 101u8, 110u8, 116u8, 45u8, 76u8,
                101u8, 110u8, 103u8, 116u8, 104u8]);
        }
    }

    /// Append the body: the first call writes its `Content-Length` and the
    /// blank line and closes the header section; every call appends the
    /// bytes.
    pub fn body(&mut self, body: &[u8])
        ensures
            final(self).status_written == old(self).status_written,
            final(self).headers_done,
            final(self).buffer.data@ == if old(self).headers_done {
                old(self).buffer.data@ + body@
            } else {
                old(self).buffer.data@ + spec_fast_header(
                    seq![67u8, 111u8, 110u8, 116u8, 101u8, 110u8, 116u8, 45u8, 76u8, 101u8,
                        110u8, 103u8, 116u8, 104u8],
                    spec_decimal(body@.len()),
                ) + seq![CR, LF] + body@
            },
    {
        if !self.headers_done {
            self.content_length(body.len());
            let crlf: [u8; 2] = [CR, LF];
            self.buffer.write_all(crlf.as_slice());
            self.headers_done = true;
        }
        self.buffer.write_all(body);
        proof {
            if !old(self).headers_done {
                assert(self.buffer.data@ =~= old(self).buffer.data@ + spec_fast_header(
                    seq![67u8, 111u8, 110u8, 116u8, 101u8, 110u8, 116u8, 45u8, 76u8, 101u8,
                        110u8, 103u8, 116u8, 104u8],
                    spec_decimal(body@.len()),
                ) + seq![CR, LF] + body@);
            }
        }
    }

    /// Finish and copy the wire bytes onto `out`: a writer never given a
    /// status gets `200` written now, and a header section never closed is
    /// closed.
    pub fn write_to(self, out: &mut Vec<u8>)
        ensures
            final(out)@ == old(out)@ + self.buffer.data@ + (if self.status_written {
                Seq::<u8>::empty()
            } else {
                spec_status_line(200)
            }) + (if self.headers_done {
                Seq::<u8>::empty()
            } else {
                seq![CR, LF]
            }),
    {
        let mut this = self;
        if !this.status_written {
            this.status(200);
        }
        if !this.headers_done {
            let crlf: [u8; 2] = [CR, LF];
            this.buffer.write_all(crlf.as_slice());
        }
        out.extend_from_slice(this.buffer.as_bytes());
        proof {
            assert(out@ =~= old(out)@ + self.buffer.data@ + (if self.status_written {
                Seq::<u8>::empty()
            } else {
                spec_status_line(200)
            }) + (if self.headers_done {
                Seq::<u8>::empty()
            } else {
                seq![CR, LF]
            }));
        }
    }
}

} // verus!
