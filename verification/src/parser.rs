//! HTTP/1.1 request parsing.
//!
//! [`Request::parse`] works on a complete in-memory buffer: the first line
//! yields method, path and version; following lines up to a blank line are
//! headers; the offset just past the blank line is where the body begins.
//! The parser is stateless — a caller that has read only part of a message
//! parses once for the header section, reads until `Content-Length` more
//! bytes are buffered, and parses again.

use vstd::prelude::*;
use crate::bytes::{CR, LF, SP, COLON, hdr_views, spec_trim, spec_trim_start, spec_trim_end,
    spec_find_byte, lemma_find_byte, lemma_find_byte_unique, lemma_trim_end_concat, find_byte,
    trim_end_bytes, trim_bytes, sub_bytes, bytes_eq};
use crate::decimal::{spec_parse_decimal, parse_decimal_u64};
use crate::method::{Method, spec_method_from_bytes};

verus! {

/// Why a buffer failed to parse as a request.
#[derive(Debug, Clone, Copy, PartialEq, Eq, Structural)]
pub enum ParseError {
    /// The buffer holds no request line at all.
    InvalidRequest,
    /// The method token is not one of the recognized verbs.
    InvalidMethod,
    /// The request line has no path token.
    InvalidPath,
    /// The request line has no version token.
    InvalidVersion,
    /// A header line carries no `:` separator.
    InvalidHeader,
}

impl ParseError {
    /// A short description of the failure, for logs and error bodies.
    pub fn message(&self) -> &'static str {
        match self {
            ParseError::InvalidRequest => "Invalid HTTP request",
            ParseError::InvalidMethod => "Invalid HTTP method",
            ParseError::InvalidPath => "Invalid request path",
            ParseError::InvalidVersion => "Invalid HTTP version",
            ParseError::InvalidHeader => "Invalid HTTP header",
        }
    }
}

/// A parsed request: owned copies of the interesting slices of the buffer.
#[derive(Debug)]
pub struct Request {
    /// The recognized verb.
    pub method: Method,
    /// The raw path token, undecoded.
    pub path: Vec<u8>,
    /// The version token, e.g. `HTTP/1.1`.
    pub version: Vec<u8>,
    /// Header entries in wire order; lookups take the last entry of a name.
    pub headers: Vec<(Vec<u8>, Vec<u8>)>,
    /// The bytes after the blank line.
    pub body: Vec<u8>,
}

/// What parsing recovers from a buffer, at the specification level.
pub ghost struct SpecRequest {
    /// The recognized verb.
    pub method: Method,
    /// The raw path token.
    pub path: Seq<u8>,
    /// The version token.
    pub version: Seq<u8>,
    /// Header entries in wire order.
    pub headers: Seq<(Seq<u8>, Seq<u8>)>,
    /// Offset of the first body byte.
    pub body_start: nat,
}

/// The first line of the buffer: everything before the first line feed, or
/// the whole buffer when there is none.
pub open spec fn spec_first_line(bytes: Seq<u8>) -> Seq<u8> {
    match spec_find_byte(bytes, LF) {
        Some(i) => if 0 <= i <= bytes.len() {
            bytes.take(i)
        } else {
            bytes
        },
        None => bytes,
    }
}

/// The offset at which header lines begin: just past the first line feed, or
/// the end of the buffer when there is none.
pub open spec fn spec_after_first_line(bytes: Seq<u8>) -> nat {
    match spec_find_byte(bytes, LF) {
        Some(i) => if 0 <= i < bytes.len() {
            (i + 1) as nat
        } else {
            bytes.len()
        },
        None => bytes.len(),
    }
}

/// Split the trimmed request line into its method, path and version tokens:
/// the pieces between the first two spaces, with everything after a third
/// space ignored.
pub open spec fn spec_request_line(line: Seq<u8>) -> Result<(Seq<u8>, Seq<u8>, Seq<u8>), ParseError> {
    let tok1 = match spec_find_byte(line, SP) {
        Some(i) => if 0 <= i <= line.len() {
            line.take(i)
        } else {
            line
        },
        None => line,
    };
    if spec_method_from_bytes(tok1) is None {
        Err(ParseError::InvalidMethod)
    } else {
        match spec_find_byte(line, SP) {
            None => Err(ParseError::InvalidPath),
            Some(i1) => {
                let rest1 = line.skip(i1 + 1);
                match spec_find_byte(rest1, SP) {
                    None => Err(ParseError::InvalidVersion),
                    Some(i2) => {
                        let path = rest1.take(i2);
                        let rest2 = rest1.skip(i2 + 1);
                        let version = match spec_find_byte(rest2, SP) {
                            Some(i3) => if 0 <= i3 <= rest2.len() {
                                rest2.take(i3)
                            } else {
                                rest2
                            },
                            None => rest2,
                        };
                        Ok((tok1, path, version))
                    },
                }
            },
        }
    }
}

/// Parse header lines from `s` until a blank line or the end of the buffer.
/// Yields the entries and the number of bytes consumed, the blank line
/// included; a nonblank line without a colon is an error.
pub open spec fn spec_parse_headers(s: Seq<u8>) -> Result<(Seq<(Seq<u8>, Seq<u8>)>, nat), ParseError>
    decreases s.len(),
{
    if s.len() == 0 {
        Ok((Seq::empty(), 0))
    } else {
        let line = spec_first_line(s);
        let consumed = spec_after_first_line(s);
        if line.len() == 0 || (line.len() == 1 && line[0] == CR) {
            Ok((Seq::empty(), consumed))
        } else {
            let lt = spec_trim_end(line);
            match spec_find_byte(lt, COLON) {
                None => Err(ParseError::InvalidHeader),
                Some(c) => {
                    let entry = (lt.take(c), spec_trim(lt.skip(c + 1)));
                    if consumed >= s.len() {
                        Ok((seq![entry], s.len()))
                    } else {
                        match spec_parse_headers(s.skip(consumed as int)) {
                            Ok((es, m)) => Ok((seq![entry] + es, consumed + m)),
                            Err(e) => Err(e),
                        }
                    }
                },
            }
        }
    }
}

/// The whole parse: request line, then headers, then the body offset.
pub open spec fn spec_parse(bytes: Seq<u8>) -> Result<SpecRequest, ParseError> {
    if bytes.len() == 0 {
        Err(ParseError::InvalidRequest)
    } else {
        let line = spec_trim_end(spec_first_line(bytes));
        match spec_request_line(line) {
            Err(e) => Err(e),
            Ok((tok1, path, version)) => {
                let after = spec_after_first_line(bytes);
                match spec_parse_headers(bytes.skip(after as int)) {
                    Err(e) => Err(e),
                    Ok((hs, m)) => Ok(SpecRequest {
                        method: spec_method_from_bytes(tok1)->Some_0,
                        path: path,
                        version: version,
                        headers: hs,
                        body_start: after + m,
                    }),
                }
            },
        }
    }
}

/// A request reduced to its mathematical content.
pub ghost struct ReqModel {
    /// The recognized verb.
    pub method: Method,
    /// The raw path token.
    pub path: Seq<u8>,
    /// The version token.
    pub version: Seq<u8>,
    /// Header entries in wire order.
    pub headers: Seq<(Seq<u8>, Seq<u8>)>,
    /// The body bytes.
    pub body: Seq<u8>,
}

/// The model of a request value.
pub open spec fn req_model(r: &Request) -> ReqModel {
    ReqModel {
        method: r.method,
        path: r.path@,
        version: r.version@,
        headers: hdr_views(r.headers@),
        body: r.body@,
    }
}

/// The last value recorded under `name`, if any: later entries win.
pub open spec fn spec_header_lookup(hs: Seq<(Seq<u8>, Seq<u8>)>, name: Seq<u8>) -> Option<Seq<u8>>
    decreases hs.len(),
{
    if hs.len() == 0 {
        None
    } else if hs.last().0 == name {
        Some(hs.last().1)
    } else {
        spec_header_lookup(hs.drop_last(), name)
    }
}

impl Request {
    /// Parse a request from a buffer. On success, also yields the offset of
    /// the first body byte, so a caller can tell how much of the buffer the
    /// header section used.
    #[verifier::loop_isolation(false)]
    #[verifier::rlimit(100)]
    pub fn parse(buffer: &[u8]) -> (r: Result<(Request, usize), ParseError>)
        ensures
            match spec_parse(buffer@) {
                Ok(m) => match r {
                    Ok((req, body_start)) => {
                        &&& req.method == m.method
                        &&& req.path@ == m.path
                        &&& req.version@ == m.version
                        &&& hdr_views(req.headers@) == m.headers
                        &&& body_start == m.body_start
                        &&& req.body@ == buffer@.skip(m.body_start as int)
                    },
                    Err(_) => false,
                },
                Err(e) => r == Err::<(Request, usize), ParseError>(e),
            },
    {
        if buffer.len() == 0 {
            return Err(ParseError::InvalidRequest);
        }
        // Request line.
        let (line_end, after_line): (usize, usize) = match find_byte(buffer, LF) {
            Some(i) => {
                proof {
                    lemma_find_byte(buffer@, LF);
                }
                (i, i + 1)
            },
            None => (buffer.len(), buffer.len()),
        };
        proof {
            assert(buffer@.take(line_end as int) == spec_first_line(buffer@));
            assert(after_line == spec_after_first_line(buffer@));
        }
        let line = trim_end_bytes(buffer, line_end);
        let ghost line_s = spec_trim_end(spec_first_line(buffer@));
        proof {
            assert(line@ == line_s);
        }
        // Method token.
        let (tok1_end, tok1_found): (usize, bool) = match find_byte(line.as_slice(), SP) {
            Some(i) => {
                proof {
                    lemma_find_byte(line@, SP);
                }
                (i, true)
            },
            None => (line.len(), false),
        };
        let tok1 = sub_bytes(line.as_slice(), 0, tok1_end);
        proof {
            assert(tok1@ == match spec_find_byte(line_s, SP) {
                Some(i) => if 0 <= i <= line_s.len() {
                    line_s.take(i)
                } else {
                    line_s
                },
                None => line_s,
            }) by {
                if tok1_found {
                    assert(tok1@ =~= line_s.take(tok1_end as int));
                } else {
                    assert(tok1@ =~= line_s);
                }
            }
        }
        let method = match Method::from_bytes(tok1.as_slice()) {
            Some(m) => m,
            None => {
                return Err(ParseError::InvalidMethod);
            },
        };
        if !tok1_found {
            return Err(ParseError::InvalidPath);
        }
        // Path token.
        let line_len = line.len();
        proof {
            assert(spec_find_byte(line_s, SP) == Some(tok1_end as int));
            assert(tok1_end < line_len);
        }
        let rest1_start = tok1_end + 1;
        let ghost rest1_s = line_s.skip(rest1_start as int);
        let rest1 = sub_bytes(line.as_slice(), rest1_start, line.len());
        proof {
            assert(rest1@ =~= rest1_s);
        }
        let (i2, i2_found): (usize, bool) = match find_byte(rest1.as_slice(), SP) {
            Some(i) => {
                proof {
                    lemma_find_byte(rest1@, SP);
                }
                (i, true)
            },
            None => (rest1.len(), false),
        };
        if !i2_found {
            return Err(ParseError::InvalidVersion);
        }
        let path = sub_bytes(rest1.as_slice(), 0, i2);
        proof {
            assert(path@ =~= rest1_s.take(i2 as int));
        }
        // Version token.
        let rest2 = sub_bytes(rest1.as_slice(), i2 + 1, rest1.len());
        let ghost rest2_s = rest1_s.skip(i2 + 1);
        proof {
            assert(rest2@ =~= rest2_s);
        }
        let (i3, i3_found): (usize, bool) = match find_byte(rest2.as_slice(), SP) {
            Some(i) => {
                proof {
                    lemma_find_byte(rest2@, SP);
                }
                (i, true)
            },
            None => (rest2.len(), false),
        };
        let version = sub_bytes(rest2.as_slice(), 0, i3);
        proof {
            assert(version@ == match spec_find_byte(rest2_s, SP) {
                Some(i) => if 0 <= i <= rest2_s.len() {
                    rest2_s.take(i)
                } else {
                    rest2_s
                },
                None => rest2_s,
            }) by {
                if i3_found {
                    assert(version@ =~= rest2_s.take(i3 as int));
                } else {
                    assert(version@ =~= rest2_s);
                }
            }
        }
        // Headers.
        let mut headers: Vec<(Vec<u8>, Vec<u8>)> = Vec::new();
        let mut o: usize = after_line;
        let mut body_start: usize = buffer.len();
        let ghost headers_suffix = buffer@.skip(after_line as int);
        proof {
            assert(buffer@.skip(o as int) =~= headers_suffix);
        }
        while o < buffer.len()
            invariant
                after_line <= o <= buffer.len(),
                body_start == buffer.len(),
                match spec_parse_headers(headers_suffix) {
                    Ok((es, m)) => match spec_parse_headers(buffer@.skip(o as int)) {
                        Ok((es2, m2)) => es == hdr_views(headers@) + es2 && m == o - after_line
                            + m2,
                        Err(_) => false,
                    },
                    Err(e) => spec_parse_headers(buffer@.skip(o as int)) == Err::<(
                        Seq<(Seq<u8>, Seq<u8>)>,
                        nat,
                    ), ParseError>(e),
                },
            decreases buffer.len() - o,
        {
            let tail = &buffer[o..buffer.len()];
            let ghost tail_s = buffer@.skip(o as int);
            proof {
                assert(tail@ =~= tail_s);
            }
            let (l_end, l_after): (usize, usize) = match find_byte(tail, LF) {
                Some(i) => {
                    proof {
                        lemma_find_byte(tail@, LF);
                    }
                    (i, i + 1)
                },
                None => (tail.len(), tail.len()),
            };
            proof {
                assert(tail_s.take(l_end as int) == spec_first_line(tail_s));
                assert(l_after == spec_after_first_line(tail_s));
            }
            // Blank line: the body starts just past it.
            if l_end == 0 || (l_end == 1 && tail[0] == CR) {
                body_start = o + l_after;
                proof {
                    assert(spec_parse_headers(tail_s) == Ok::<_, ParseError>((
                        Seq::<(Seq<u8>, Seq<u8>)>::empty(),
                        l_after as nat,
                    )));
                    assert(hdr_views(headers@) + Seq::<(Seq<u8>, Seq<u8>)>::empty() =~= hdr_views(
                        headers@,
                    ));
                }
                let body = sub_bytes(buffer, body_start, buffer.len());
                proof {
                    assert(body@ =~= buffer@.skip(body_start as int));
                }
                let req = Request { method, path, version, headers, body };
                return Ok((req, body_start));
            }
            let lt = trim_end_bytes(tail, l_end);
            let ghost lt_s = spec_trim_end(spec_first_line(tail_s));
            proof {
                assert(lt@ == lt_s);
            }
            match find_byte(lt.as_slice(), COLON) {
                None => {
                    return Err(ParseError::InvalidHeader);
                },
                Some(c) => {
                    proof {
                        lemma_find_byte(lt@, COLON);
                        assert(spec_find_byte(lt_s, COLON) == Some(c as int));
                        assert(c < lt_s.len());
                    }
                    let name = sub_bytes(lt.as_slice(), 0, c);
                    let lt_len = lt.len();
                    proof {
                        assert(c < lt_len);
                    }
                    let value_raw = &lt.as_slice()[c + 1..lt_len];
                    let value = trim_bytes(value_raw);
                    proof {
                        assert(name@ =~= lt_s.take(c as int));
                        assert(value_raw@ =~= lt_s.skip(c + 1));
                    }
                    let ghost before = hdr_views(headers@);
                    headers.push((name, value));
                    proof {
                        let entry = (lt_s.take(c as int), spec_trim(lt_s.skip(c + 1)));
                        assert(hdr_views(headers@) =~= before.push(entry));
                        if l_after >= tail.len() {
                            assert(spec_parse_headers(tail_s) == Ok::<_, ParseError>((
                                seq![entry],
                                tail_s.len(),
                            )));
                            assert(buffer@.skip(buffer@.len() as int).len() == 0);
                            assert(before.push(entry) =~= before + seq![entry]);
                            assert((before + seq![entry]) + Seq::<(Seq<u8>, Seq<u8>)>::empty()
                                =~= before + seq![entry]);
                        } else {
                            assert(tail_s.skip(l_after as int) =~= buffer@.skip(
                                o + l_after,
                            ));
                            assert(before.push(entry) =~= before + seq![entry]);
                            match spec_parse_headers(tail_s.skip(l_after as int)) {
                                Ok((es2, m2)) => {
                                    assert((before + seq![entry]) + es2 =~= before + (seq![entry]
                                        + es2));
                                },
                                Err(_) => {},
                            }
                        }
                    }
                    o = o + l_after;
                },
            }
        }
        proof {
            assert(buffer@.skip(buffer@.len() as int).len() == 0);
            assert(hdr_views(headers@) + Seq::<(Seq<u8>, Seq<u8>)>::empty() =~= hdr_views(
                headers@,
            ));
            assert(buffer@.skip(body_start as int).len() == 0);
        }
        let body = sub_bytes(buffer, body_start, buffer.len());
        let req = Request { method, path, version, headers, body };
        Ok((req, body_start))
    }

    /// The last value sent under `name`, if any.
    pub fn header(&self, name: &[u8]) -> (r: Option<Vec<u8>>)
        ensures
            match spec_header_lookup(hdr_views(self.headers@), name@) {
                Some(v) => match r {
                    Some(rv) => rv@ == v,
                    None => false,
                },
                None => r is None,
            },
    {
        let n = self.headers.len();
        proof {
            assert(hdr_views(self.headers@).take(n as int) =~= hdr_views(self.headers@));
        }
        let mut i: usize = n;
        while i > 0
            invariant
                i <= n == self.headers.len(),
                spec_header_lookup(hdr_views(self.headers@), name@) == spec_header_lookup(
                    hdr_views(self.headers@).take(i as int),
                    name@,
                ),
            decreases i,
        {
            proof {
                let hv = hdr_views(self.headers@);
                assert(hv.take(i as int).last() == hv[i - 1]);
                assert(hv.take(i as int).drop_last() =~= hv.take(i - 1));
            }
            if bytes_eq(self.headers[i - 1].0.as_slice(), name) {
                return Some(vstd::slice::slice_to_vec(self.headers[i - 1].1.as_slice()));
            }
            i -= 1;
        }
        proof {
            assert(hdr_views(self.headers@).take(0).len() == 0);
        }
        None
    }

    /// The `Content-Length` header read as a number, when it is present,
    /// all digits, and in range.
    pub fn content_length(&self) -> (r: Option<usize>)
        ensures
            match spec_header_lookup(hdr_views(self.headers@), crate::response::cl_name_bytes()) {
                Some(v) => match spec_parse_decimal(v) {
                    Some(n) => r == if n <= usize::MAX {
                        Some(n as usize)
                    } else {
                        None::<usize>
                    },
                    None => r is None,
                },
                None => r is None,
            },
    {
        // "Content-Length"
        let cl: [u8; 14] = [67, 111, 110, 116, 101, 110, 116, 45, 76, 101, 110, 103, 116, 104];
        proof {
            assert(cl@ =~= crate::response::cl_name_bytes());
        }
        match self.header(cl.as_slice()) {
            Some(v) => match parse_decimal_u64(v.as_slice()) {
                Some(n) => {
                    if n <= usize::MAX as u64 {
                        Some(n as usize)
                    } else {
                        None
                    }
                },
                None => None,
            },
            None => None,
        }
    }
}

/// Bytes of the version token `"HTTP/1.1"`.
pub open spec fn http_version_bytes() -> Seq<u8> {
    seq![72u8, 84u8, 84u8, 80u8, 47u8, 49u8, 46u8, 49u8]
}

/// Bytes of the header name `"Host"`.
pub open spec fn host_name_bytes() -> Seq<u8> {
    seq![72u8, 111u8, 115u8, 116u8]
}

/// No method token holds a space, line break, carriage return or colon.
pub proof fn lemma_method_token_chars(m: Method)
    ensures
        forall|j: int| 0 <= j < crate::method::method_token(m).len()
            ==> #[trigger] crate::method::method_token(m)[j] != SP
                && crate::method::method_token(m)[j] != LF
                && crate::method::method_token(m)[j] != CR,
{
}

/// A one-header request serializes and parses back losslessly: for every
/// path without spaces or line feeds and every host value without line
/// feeds, parsing `<method> <path> HTTP/1.1`, a `Host` header and a blank
/// line recovers exactly the method, the path and the version, leaves the
/// host (trimmed) as the one header, and puts the body at the buffer's end.
#[verifier::rlimit(100)]
#[verifier::spinoff_prover]
pub proof fn lemma_parse_round_trip(m: Method, path: Seq<u8>, host: Seq<u8>)
    requires
        forall|j: int| 0 <= j < path.len() ==> path[j] != SP && path[j] != LF,
        forall|j: int| 0 <= j < host.len() ==> host[j] != LF,
    ensures
        ({
            let bytes = crate::method::method_token(m) + seq![SP] + path + seq![SP]
                + http_version_bytes() + seq![CR, LF] + host_name_bytes() + seq![COLON, SP]
                + host + seq![CR, LF] + seq![CR, LF];
            match spec_parse(bytes) {
                Ok(r) => {
                    &&& r.method == m
                    &&& r.path == path
                    &&& r.version == http_version_bytes()
                    &&& r.headers == seq![(host_name_bytes(), spec_trim(host))]
                    &&& r.body_start == bytes.len()
                },
                Err(_) => false,
            }
        }),
{
    let token = crate::method::method_token(m);
    let tl = token.len() as int;
    let pl = path.len() as int;
    let line_a = token + seq![SP] + path + seq![SP] + http_version_bytes();
    let tail_h = host_name_bytes() + seq![COLON, SP] + host + seq![CR, LF] + seq![CR, LF];
    let bytes = token + seq![SP] + path + seq![SP] + http_version_bytes() + seq![CR, LF]
        + host_name_bytes() + seq![COLON, SP] + host + seq![CR, LF] + seq![CR, LF];
    lemma_method_token_chars(m);
    assert(bytes =~= line_a + seq![CR, LF] + tail_h);

    // The request line ends at the first line feed.
    let lf1: int = line_a.len() as int + 1;
    assert(bytes[lf1 as int] == LF);
    assert forall|j: int| 0 <= j < lf1 implies bytes[j] != LF by {
        if j < tl {
            assert(bytes[j] == token[j]);
        } else if j == tl {
            assert(bytes[j] == SP);
        } else if j < tl + 1 + pl {
            assert(bytes[j] == path[j - tl - 1]);
        } else if j == tl + 1 + pl {
            assert(bytes[j] == SP);
        } else if j < tl + pl + 10 {
            assert(bytes[j] == http_version_bytes()[j - tl - pl - 2]);
        } else {
            assert(bytes[j] == CR);
        }
    }
    lemma_find_byte_unique(bytes, LF, lf1 as int);
    assert(spec_first_line(bytes) =~= line_a + seq![CR]);
    assert(spec_after_first_line(bytes) == lf1 + 1);

    // Trimming the line drops only the carriage return.
    lemma_trim_end_concat(line_a, seq![CR]);
    assert(spec_trim_end(seq![CR]).len() == 0) by {
        assert(seq![CR].take(0) =~= Seq::<u8>::empty());
        assert(spec_trim_end(Seq::<u8>::empty()).len() == 0);
    }
    assert(spec_trim_end(line_a) == line_a) by {
        assert(line_a.last() == 49u8);
        assert(!crate::bytes::is_ascii_ws(49u8));
    }
    assert(spec_first_line(bytes) == line_a + seq![CR]);
    assert(spec_trim_end(spec_first_line(bytes)) == line_a);

    // The three tokens come apart at the two spaces.
    assert(line_a[tl] == SP);
    assert forall|j: int| 0 <= j < tl implies line_a[j] != SP by {
        assert(line_a[j] == token[j]);
    }
    lemma_find_byte_unique(line_a, SP, tl);
    assert(line_a.take(tl) =~= token);
    crate::method::lemma_token_round_trip(m);
    let rest1 = line_a.skip(tl + 1);
    assert(rest1 =~= path + seq![SP] + http_version_bytes());
    assert(rest1[pl] == SP);
    assert forall|j: int| 0 <= j < pl implies rest1[j] != SP by {
        assert(rest1[j] == path[j]);
    }
    lemma_find_byte_unique(rest1, SP, pl);
    assert(rest1.take(pl) =~= path);
    let rest2 = rest1.skip(pl + 1);
    assert(rest2 =~= http_version_bytes());
    assert(spec_find_byte(rest2, SP) is None) by {
        lemma_find_byte(rest2, SP);
        assert(forall|j: int| 0 <= j < rest2.len() ==> rest2[j] != SP);
    }
    assert(spec_request_line(line_a) == Ok::<_, ParseError>((
        token,
        path,
        http_version_bytes(),
    )));

    // The header section: one Host line, then the blank line.
    assert(bytes.skip(lf1 as int + 1) =~= tail_h);
    let hl: int = host.len() as int + 6;
    assert(tail_h[hl + 1] == LF);
    assert forall|j: int| 0 <= j < hl + 1 implies tail_h[j] != LF by {
        if j < 4 {
            assert(tail_h[j] == host_name_bytes()[j]);
        } else if j == 4 {
            assert(tail_h[j] == COLON);
        } else if j == 5 {
            assert(tail_h[j] == SP);
        } else if j < host.len() + 6 {
            assert(tail_h[j] == host[j - 6]);
        } else {
            assert(tail_h[j] == CR);
        }
    }
    lemma_find_byte_unique(tail_h, LF, hl as int + 1);
    let host_line = host_name_bytes() + seq![COLON, SP] + host + seq![CR];
    assert(spec_first_line(tail_h) =~= host_line);
    assert(spec_after_first_line(tail_h) == hl + 2);
    assert(!(host_line.len() == 0) && !(host_line.len() == 1));

    // Trimming the host line keeps `Host:` and trims the value.
    let a = host_name_bytes() + seq![COLON];
    let b = seq![SP] + host + seq![CR];
    assert(host_line =~= a + b);
    lemma_trim_end_concat(a, b);
    assert(spec_trim_end(a) == a) by {
        assert(a.last() == COLON);
        assert(!crate::bytes::is_ascii_ws(COLON));
    }
    let lt = spec_trim_end(host_line);
    assert(lt == if spec_trim_end(b).len() > 0 {
        a + spec_trim_end(b)
    } else {
        a
    });
    assert(lt[4] == COLON);
    assert forall|j: int| 0 <= j < 4 implies lt[j] != COLON by {
        assert(lt[j] == host_name_bytes()[j]);
    }
    lemma_find_byte_unique(lt, COLON, 4);
    assert(lt.take(4) =~= host_name_bytes());
    assert(lt.skip(5) =~= spec_trim_end(b)) by {
        if spec_trim_end(b).len() > 0 {
            assert(lt =~= a + spec_trim_end(b));
        } else {
            assert(lt =~= a);
        }
    }
    // The entry's value is the trimmed host.
    crate::bytes::lemma_trim_end_stable(b);
    assert(spec_trim(lt.skip(5)) == spec_trim(host)) by {
        assert(spec_trim_end(spec_trim_end(b)) == spec_trim_end(b));
        assert(spec_trim(lt.skip(5)) == spec_trim_start(spec_trim_end(b)));
        lemma_trim_end_concat(seq![SP] + host, seq![CR]);
        assert(spec_trim_end(seq![CR]).len() == 0) by {
            assert(seq![CR].take(0) =~= Seq::<u8>::empty());
            assert(spec_trim_end(Seq::<u8>::empty()).len() == 0);
        }
        assert(b =~= (seq![SP] + host) + seq![CR]);
        assert(spec_trim_end(b) == spec_trim_end(seq![SP] + host));
        lemma_trim_end_concat(seq![SP], host);
        if spec_trim_end(host).len() > 0 {
            assert(spec_trim_end(b) == seq![SP] + spec_trim_end(host));
            assert(spec_trim_start(seq![SP] + spec_trim_end(host)) == spec_trim_start(
                spec_trim_end(host),
            )) by {
                assert((seq![SP] + spec_trim_end(host)).skip(1) =~= spec_trim_end(host));
            }
        } else {
            assert(spec_trim_end(seq![SP]) =~= Seq::<u8>::empty()) by {
                assert(seq![SP].take(0) =~= Seq::<u8>::empty());
                assert(spec_trim_end(Seq::<u8>::empty()).len() == 0);
            }
            assert(spec_trim_end(b).len() == 0);
            assert(spec_trim_start(spec_trim_end(b)).len() == 0);
            assert(spec_trim(host).len() == 0);
        }
    }

    // After the host line comes the blank line that ends the headers.
    let blank = tail_h.skip(hl as int + 2);
    assert(blank =~= seq![CR, LF]);
    assert(blank[1] == LF && blank[0] != LF);
    lemma_find_byte_unique(blank, LF, 1);
    assert(spec_first_line(blank) =~= seq![CR]);
    assert(spec_first_line(blank).len() == 1 && spec_first_line(blank)[0] == CR);
    assert(spec_after_first_line(blank) == 2);
    assert(spec_parse_headers(blank) == Ok::<_, ParseError>((
        Seq::<(Seq<u8>, Seq<u8>)>::empty(),
        2nat,
    )));
    let entry = (host_name_bytes(), spec_trim(host));
    assert(spec_parse_headers(tail_h) == Ok::<_, ParseError>((
        seq![entry],
        tail_h.len(),
    ))) by {
        assert(hl + 2 < tail_h.len());
        assert(seq![entry] + Seq::<(Seq<u8>, Seq<u8>)>::empty() =~= seq![entry]);
    }
    assert(lf1 + 1 + tail_h.len() == bytes.len());
}

} // verus!
