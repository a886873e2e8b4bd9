//! Fast-path helpers for hot request handling: method recognition from a
//! token's first bytes, version and keep-alive checks, header-name
//! normalization, and a forgiving `Content-Length` reader.

use vstd::prelude::*;
use crate::handshake::{spec_lower, spec_lower_seq};
use crate::method::Method;

verus! {

/// The method recognized from a token's leading bytes: three bytes decide,
/// with only as many further bytes checked as the verb needs, so trailing
/// bytes beyond them are ignored.
pub open spec fn spec_parse_method_fast(bytes: Seq<u8>) -> Option<Method> {
    if bytes.len() < 3 {
        None
    } else if bytes[0] == 71 && bytes[1] == 69 && bytes[2] == 84 {  // "GET"
        Some(Method::GET)
    } else if bytes[0] == 80 && bytes[1] == 79 && bytes[2] == 83 {  // "POS"
        if bytes.len() >= 4 && bytes[3] == 84 {  // "T"
            Some(Method::POST)
        } else {
            None
        }
    } else if bytes[0] == 80 && bytes[1] == 85 && bytes[2] == 84 {  // "PUT"
        Some(Method::PUT)
    } else if bytes[0] == 68 && bytes[1] == 69 && bytes[2] == 76 {  // "DEL"
        if bytes.len() >= 6 && bytes[3] == 69 && bytes[4] == 84 && bytes[5] == 69 {  // "ETE"
            Some(Method::DELETE)
        } else {
            None
        }
    } else if bytes[0] == 72 && bytes[1] == 69 && bytes[2] == 65 {  // "HEA"
        if bytes.len() >= 4 && bytes[3] == 68 {  // "D"
            Some(Method::HEAD)
        } else {
            None
        }
    } else {
        None
    }
}

/// Recognize a method from a token's leading bytes.
pub fn parse_method_fast(bytes: &[u8]) -> (r: Option<Method>)
    ensures
        r == spec_parse_method_fast(bytes@),
{
    if bytes.len() < 3 {
        return None;
    }
    let b0 = bytes[0];
    let b1 = bytes[1];
    let b2 = bytes[2];
    if b0 == 71 && b1 == 69 && b2 == 84 {
        Some(Method::GET)
    } else if b0 == 80 && b1 == 79 && b2 == 83 {
        if bytes.len() >= 4 && bytes[3] == 84 {
            Some(Method::POST)
        } else {
            None
        }
    } else if b0 == 80 && b1 == 85 && b2 == 84 {
        Some(Method::PUT)
    } else if b0 == 68 && b1 == 69 && b2 == 76 {
        if bytes.len() >= 6 && bytes[3] == 69 && bytes[4] == 84 && bytes[5] == 69 {
            Some(Method::DELETE)
        } else {
            None
        }
    } else if b0 == 72 && b1 == 69 && b2 == 65 {
        if bytes.len() >= 4 && bytes[3] == 68 {
            Some(Method::HEAD)
        } else {
            None
        }
    } else {
        None
    }
}

/// Whether the bytes begin with exactly `HTTP/1.1`.
pub open spec fn spec_is_http_11(bytes: Seq<u8>) -> bool {
    bytes.len() >= 8 && bytes[0] == 72 && bytes[1] == 84 && bytes[2] == 84 && bytes[3] == 80
        && bytes[4] == 47 && bytes[5] == 49 && bytes[6] == 46 && bytes[7] == 49
}

/// Check for the `HTTP/1.1` version prefix.
pub fn is_http_11(bytes: &[u8]) -> (r: bool)
    ensures
        r == spec_is_http_11(bytes@),
{
    bytes.len() >= 8 && bytes[0] == 72 && bytes[1] == 84 && bytes[2] == 84 && bytes[3] == 80
        && bytes[4] == 47 && bytes[5] == 49 && bytes[6] == 46 && bytes[7] == 49
}

/// Lowercase a header name in place, so lookups can be case-insensitive.
pub fn normalize_header_name(bytes: &mut Vec<u8>)
    ensures
        final(bytes)@ == spec_lower_seq(old(bytes)@),
{
    let n = bytes.len();
    let mut i: usize = 0;
    while i < n
        invariant
            i <= n == bytes@.len(),
            forall|j: int| 0 <= j < i ==> bytes@[j] == spec_lower(old(bytes)@[j]),
            forall|j: int| i <= j < n ==> bytes@[j] == old(bytes)@[j],
        decreases n - i,
    {
        let b = bytes[i];
        if 65 <= b && b <= 90 {
            bytes[i] = b + 32;
        }
        i += 1;
    }
    proof {
        assert(bytes@ =~= spec_lower_seq(old(bytes)@));
    }
}

/// `x` cut off at `usize::MAX`.
pub open spec fn spec_sat_usize(x: int) -> int {
    if x > usize::MAX {
        usize::MAX as int
    } else {
        x
    }
}

/// A forgiving decimal read from `acc` on: digits accumulate with
/// saturation, spaces anywhere are skipped, anything else fails.
pub open spec fn spec_cl_digits(s: Seq<u8>, acc: int) -> Option<int>
    decreases s.len(),
{
    if s.len() == 0 {
        Some(acc)
    } else if 48 <= s[0] <= 57 {
        spec_cl_digits(s.skip(1), spec_sat_usize(spec_sat_usize(acc * 10) + (s[0] - 48)))
    } else if s[0] == 32 {
        spec_cl_digits(s.skip(1), acc)
    } else {
        None
    }
}

/// Read a `Content-Length` value fast: digits with saturation, spaces
/// skipped, and an empty value reading as zero.
pub fn parse_content_length(value: &[u8]) -> (r: Option<usize>)
    ensures
        match spec_cl_digits(value@, 0) {
            Some(v) => r == Some(v as usize),
            None => r is None,
        },
{
    let mut result: usize = 0;
    let mut i: usize = 0;
    proof {
        assert(value@.skip(0) =~= value@);
    }
    while i < value.len()
        invariant
            i <= value.len(),
            spec_cl_digits(value@, 0) == spec_cl_digits(value@.skip(i as int), result as int),
        decreases value.len() - i,
    {
        let b = value[i];
        proof {
            assert(value@.skip(i as int)[0] == value@[i as int]);
            assert(value@.skip(i as int).skip(1) =~= value@.skip(i + 1));
        }
        if 48 <= b && b <= 57 {
            let m = match result.checked_mul(10) {
                Some(x) => x,
                None => usize::MAX,
            };
            result = match m.checked_add((b - 48) as usize) {
                Some(x) => x,
                None => usize::MAX,
            };
        } else if b != 32 {
            return None;
        }
        i += 1;
    }
    proof {
        assert(value@.skip(value@.len() as int).len() == 0);
    }
    Some(result)
}

/// Whether the exchange may keep the connection open: an explicit
/// `close` (in any case) in the `Connection` header forbids it; with no
/// header, a version whose third byte is `1` defaults to keeping alive.
pub open spec fn spec_should_keep_alive(version: Seq<u8>, conn: Option<Seq<u8>>) -> bool {
    match conn {
        // "close", checked with the ASCII case bit forced on.
        Some(v) => !(v.len() >= 5 && (v[0] | 0x20) == 99 && (v[1] | 0x20) == 108 && (v[2] | 0x20)
            == 111 && (v[3] | 0x20) == 115 && (v[4] | 0x20) == 101),
        None => version.len() >= 3 && version[2] == 49,
    }
}

/// Decide the keep-alive hint from the version and `Connection` header.
pub fn should_keep_alive(version: &[u8], connection_header: Option<&[u8]>) -> (r: bool)
    ensures
        r == spec_should_keep_alive(
            version@,
            match connection_header {
                Some(v) => Some(v@),
                None => None,
            },
        ),
{
    match connection_header {
        Some(v) => {
            !(v.len() >= 5 && (v[0] | 0x20) == 99 && (v[1] | 0x20) == 108 && (v[2] | 0x20) == 111
                && (v[3] | 0x20) == 115 && (v[4] | 0x20) == 101)
        },
        None => version.len() >= 3 && version[2] == 49,
    }
}

} // verus!
