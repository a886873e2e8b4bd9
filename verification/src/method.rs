//! HTTP request methods: the closed set of verbs the server recognizes.

use vstd::prelude::*;
use crate::bytes::bytes_eq;

verus! {

/// The seven request verbs of the protocol. Any other token on the wire is
/// rejected by the parser.
#[derive(Debug, Clone, Copy, PartialEq, Eq, Hash, Structural)]
pub enum Method {
    GET,
    POST,
    PUT,
    DELETE,
    HEAD,
    OPTIONS,
    PATCH,
}

/// The wire token of a method, as a byte sequence.
pub open spec fn method_token(m: Method) -> Seq<u8> {
    match m {
        Method::GET => seq![71u8, 69u8, 84u8],  // "GET"
        Method::POST => seq![80u8, 79u8, 83u8, 84u8],  // "POST"
        Method::PUT => seq![80u8, 85u8, 84u8],  // "PUT"
        Method::DELETE => seq![68u8, 69u8, 76u8, 69u8, 84u8, 69u8],  // "DELETE"
        Method::HEAD => seq![72u8, 69u8, 65u8, 68u8],  // "HEAD"
        Method::OPTIONS => seq![79u8, 80u8, 84u8, 73u8, 79u8, 78u8, 83u8],  // "OPTIONS"
        Method::PATCH => seq![80u8, 65u8, 84u8, 67u8, 72u8],  // "PATCH"
    }
}

/// The method whose token is `bytes`, if any.
pub open spec fn spec_method_from_bytes(bytes: Seq<u8>) -> Option<Method> {
    if bytes == method_token(Method::GET) {
        Some(Method::GET)
    } else if bytes == method_token(Method::POST) {
        Some(Method::POST)
    } else if bytes == method_token(Method::PUT) {
        Some(Method::PUT)
    } else if bytes == method_token(Method::DELETE) {
        Some(Method::DELETE)
    } else if bytes == method_token(Method::HEAD) {
        Some(Method::HEAD)
    } else if bytes == method_token(Method::OPTIONS) {
        Some(Method::OPTIONS)
    } else if bytes == method_token(Method::PATCH) {
        Some(Method::PATCH)
    } else {
        None
    }
}

impl Method {
    /// Recognize a method from its wire token; unrecognized tokens yield `None`.
    pub fn from_bytes(bytes: &[u8]) -> (r: Option<Method>)
        ensures
            r == spec_method_from_bytes(bytes@),
    {
        let get: [u8; 3] = [71, 69, 84];  // "GET"
        let post: [u8; 4] = [80, 79, 83, 84];  // "POST"
        let put: [u8; 3] = [80, 85, 84];  // "PUT"
        let delete: [u8; 6] = [68, 69, 76, 69, 84, 69];  // "DELETE"
        let head: [u8; 4] = [72, 69, 65, 68];  // "HEAD"
        let options: [u8; 7] = [79, 80, 84, 73, 79, 78, 83];  // "OPTIONS"
        let patch: [u8; 5] = [80, 65, 84, 67, 72];  // "PATCH"
        proof {
            assert(get@ =~= method_token(Method::GET));
            assert(post@ =~= method_token(Method::POST));
            assert(put@ =~= method_token(Method::PUT));
            assert(delete@ =~= method_token(Method::DELETE));
            assert(head@ =~= method_token(Method::HEAD));
            assert(options@ =~= method_token(Method::OPTIONS));
            assert(patch@ =~= method_token(Method::PATCH));
        }
        if bytes_eq(bytes, get.as_slice()) {
            Some(Method::GET)
        } else if bytes_eq(bytes, post.as_slice()) {
            Some(Method::POST)
        } else if bytes_eq(bytes, put.as_slice()) {
            Some(Method::PUT)
        } else if bytes_eq(bytes, delete.as_slice()) {
            Some(Method::DELETE)
        } else if bytes_eq(bytes, head.as_slice()) {
            Some(Method::HEAD)
        } else if bytes_eq(bytes, options.as_slice()) {
            Some(Method::OPTIONS)
        } else if bytes_eq(bytes, patch.as_slice()) {
            Some(Method::PATCH)
        } else {
            None
        }
    }

    /// The canonical textual form of the method.
    pub fn as_str(&self) -> (r: &'static str)
        ensures
            r@.len() > 0,
    {
        proof {
            reveal_strlit("GET");
            reveal_strlit("POST");
            reveal_strlit("PUT");
            reveal_strlit("DELETE");
            reveal_strlit("HEAD");
            reveal_strlit("OPTIONS");
            reveal_strlit("PATCH");
        }
        match self {
            Method::GET => "GET",
            Method::POST => "POST",
            Method::PUT => "PUT",
            Method::DELETE => "DELETE",
            Method::HEAD => "HEAD",
            Method::OPTIONS => "OPTIONS",
            Method::PATCH => "PATCH",
        }
    }

    /// The wire token of the method, as owned bytes.
    pub fn token(&self) -> (r: Vec<u8>)
        ensures
            r@ == method_token(*self),
    {
        let mut r: Vec<u8> = Vec::new();
        match self {
            Method::GET => {
                r.push(71);
                r.push(69);
                r.push(84);
            },
            Method::POST => {
                r.push(80);
                r.push(79);
                r.push(83);
                r.push(84);
            },
            Method::PUT => {
                r.push(80);
                r.push(85);
                r.push(84);
            },
            Method::DELETE => {
                r.push(68);
                r.push(69);
                r.push(76);
                r.push(69);
                r.push(84);
                r.push(69);
            },
            Method::HEAD => {
                r.push(72);
                r.push(69);
                r.push(65);
                r.push(68);
            },
            Method::OPTIONS => {
                r.push(79);
                r.push(80);
                r.push(84);
                r.push(73);
                r.push(79);
                r.push(78);
                r.push(83);
            },
            Method::PATCH => {
                r.push(80);
                r.push(65);
                r.push(84);
                r.push(67);
                r.push(72);
            },
        }
        proof {
            assert(r@ =~= method_token(*self));
        }
        r
    }
}

/// Each method is recognized from exactly its own token.
pub proof fn lemma_token_round_trip(m: Method)
    ensures
        spec_method_from_bytes(method_token(m)) == Some(m),
{
}

} // verus!
