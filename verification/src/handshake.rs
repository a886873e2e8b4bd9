//! WebSocket handshake: eligibility, the accept key, and the `101` response.
//!
//! A request upgrades when, case-insensitively in the values, `Upgrade`
//! equals `websocket`, `Connection` contains `upgrade`, `Sec-WebSocket-
//! Version` equals `13`, and a `Sec-WebSocket-Key` is present. The accept
//! key is the base64 encoding of the SHA-1 digest of the client key joined
//! with the fixed protocol GUID. SHA-1 here is a plain byte-transform
//! primitive: its contract states the digest's size, and the worked protocol
//! example pins the exact accept value in the test suite.

use vstd::prelude::*;
use crate::bytes::bytes_eq;
use crate::parser::{Request, spec_header_lookup};

verus! {

/// The lowercase form of one ASCII byte.
pub open spec fn spec_lower(b: u8) -> u8 {
    if 65 <= b <= 90 {
        (b + 32) as u8
    } else {
        b
    }
}

/// The lowercase form of a byte string.
pub open spec fn spec_lower_seq(s: Seq<u8>) -> Seq<u8> {
    Seq::new(s.len(), |i: int| spec_lower(s[i]))
}

/// Lowercase a byte string.
pub fn to_lower(s: &[u8]) -> (r: Vec<u8>)
    ensures
        r@ == spec_lower_seq(s@),
{
    let mut r: Vec<u8> = Vec::new();
    let mut i: usize = 0;
    while i < s.len()
        invariant
            i <= s.len(),
            r@.len() == i,
            forall|j: int| 0 <= j < i ==> r@[j] == spec_lower(s@[j]),
        decreases s.len() - i,
    {
        let b = s[i];
        if 65 <= b && b <= 90 {
            r.push(b + 32);
        } else {
            r.push(b);
        }
        i += 1;
    }
    proof {
        assert(r@ =~= spec_lower_seq(s@));
    }
    r
}

/// Whether `needle` occurs somewhere inside `haystack`.
pub open spec fn spec_contains(haystack: Seq<u8>, needle: Seq<u8>) -> bool {
    exists|i: int|
        0 <= i <= haystack.len() - needle.len() && #[trigger] haystack.subrange(
            i,
            i + needle.len(),
        ) == needle
}

/// Substring search.
pub fn contains_bytes(haystack: &[u8], needle: &[u8]) -> (r: bool)
    ensures
        r == spec_contains(haystack@, needle@),
{
    if needle.len() > haystack.len() {
        assert(!spec_contains(haystack@, needle@));
        return false;
    }
    let mut i: usize = 0;
    let last = haystack.len() - needle.len();
    while i <= last
        invariant
            0 <= i <= last + 1,
            last == haystack.len() - needle.len(),
            needle.len() <= haystack.len(),
            forall|k: int| 0 <= k < i ==> #[trigger] haystack@.subrange(k, k + needle@.len()) != needle@,
        decreases last + 1 - i,
    {
        let mut j: usize = 0;
        let mut matches = true;
        while j < needle.len() && matches
            invariant
                0 <= j <= needle.len(),
                i + needle.len() <= haystack.len(),
                matches ==> forall|k: int| 0 <= k < j ==> haystack@[i + k] == needle@[k],
                !matches ==> j < needle.len() && haystack@[i + j] != needle@[j as int],
            decreases needle.len() - j, (if matches { 1int } else { 0int }),
        {
            if haystack[i + j] != needle[j] {
                matches = false;
            } else {
                j += 1;
            }
        }
        if matches {
            proof {
                assert(haystack@.subrange(i as int, i + needle@.len()) =~= needle@);
            }
            return true;
        }
        proof {
            assert(haystack@.subrange(i as int, i + needle@.len()) != needle@) by {
                if haystack@.subrange(i as int, i + needle@.len()) == needle@ {
                    assert(haystack@.subrange(i as int, i + needle@.len())[j as int]
                        == needle@[j as int]);
                }
            }
        }
        i += 1;
    }
    proof {
        assert forall|k: int| 0 <= k <= haystack@.len() - needle@.len()
            implies #[trigger] haystack@.subrange(k, k + needle@.len()) != needle@ by {}
    }
    false
}

/// Bytes of the fixed WebSocket GUID the accept key is derived with.
pub open spec fn ws_guid_bytes() -> Seq<u8> {
    // "258EAFA5-E914-47DA-95CA-C5AB0DC85B11"
    seq![50u8, 53u8, 56u8, 69u8, 65u8, 70u8, 65u8, 53u8, 45u8, 69u8, 57u8, 49u8, 52u8, 45u8,
        52u8, 55u8, 68u8, 65u8, 45u8, 57u8, 53u8, 67u8, 65u8, 45u8, 67u8, 53u8, 65u8, 66u8, 48u8,
        68u8, 67u8, 56u8, 53u8, 66u8, 49u8, 49u8]
}

/// Rotate a 32-bit word left by `n` bits.
fn rotl(x: u32, n: u32) -> u32
    requires
        0 < n < 32,
{
    (x << n) | (x >> (32 - n))
}

/// The SHA-1 digest of `data`: twenty bytes. The digest's value is treated
/// as a black-box byte transform; the worked handshake example in the tests
/// holds it to the standard.
pub fn sha1(data: &[u8]) -> (r: Vec<u8>)
    ensures
        r@.len() == 20,
{
    let mut h0: u32 = 0x67452301;
    let mut h1: u32 = 0xEFCDAB89;
    let mut h2: u32 = 0x98BADCFE;
    let mut h3: u32 = 0x10325476;
    let mut h4: u32 = 0xC3D2E1F0;

    // Pad to 56 modulo 64 bytes, then append the bit length.
    let mut msg = vstd::slice::slice_to_vec(data);
    let original_len = msg.len();
    msg.push(0x80);
    while msg.len() % 64 != 56
        decreases (120 - (msg@.len() % 64)) % 64,
    {
        msg.push(0x00);
    }
    let bit_len: u64 = (original_len as u64).wrapping_mul(8);
    let mut k: usize = 0;
    while k < 8
        invariant
            msg@.len() >= 56,
        decreases 8 - k,
    {
        let byte = #[verifier::truncate] ((bit_len >> ((7 - k as u64) * 8)) as u8);
        msg.push(byte);
        k += 1;
    }

    // Process 64-byte chunks.
    let mlen = msg.len();
    let mut chunk_start: usize = 0;
    while mlen - chunk_start >= 64
        invariant
            chunk_start <= mlen,
            mlen == msg@.len(),
        decreases mlen - chunk_start,
    {
        let mut w: Vec<u32> = Vec::new();
        let mut i: usize = 0;
        while i < 16
            invariant
                w.len() == i,
                i <= 16,
                chunk_start + 64 <= mlen,
                mlen == msg@.len(),
            decreases 16 - i,
        {
            let b0 = msg[chunk_start + i * 4] as u32;
            let b1 = msg[chunk_start + i * 4 + 1] as u32;
            let b2 = msg[chunk_start + i * 4 + 2] as u32;
            let b3 = msg[chunk_start + i * 4 + 3] as u32;
            w.push(((b0 * 256 + b1) * 256 + b2) * 256 + b3);
            i += 1;
        }
        let mut i: usize = 16;
        while i < 80
            invariant
                w.len() == i,
                16 <= i <= 80,
            decreases 80 - i,
        {
            let x = w[i - 3] ^ w[i - 8] ^ w[i - 14] ^ w[i - 16];
            w.push(rotl(x, 1));
            i += 1;
        }

        let mut a = h0;
        let mut b = h1;
        let mut c = h2;
        let mut d = h3;
        let mut e = h4;
        let mut i: usize = 0;
        while i < 80
            invariant
                w.len() == 80,
            decreases 80 - i,
        {
            let (f, kc): (u32, u32) = if i < 20 {
                ((b & c) | ((!b) & d), 0x5A827999)
            } else if i < 40 {
                (b ^ c ^ d, 0x6ED9EBA1)
            } else if i < 60 {
                ((b & c) | (b & d) | (c & d), 0x8F1BBCDC)
            } else {
                (b ^ c ^ d, 0xCA62C1D6)
            };
            let temp = rotl(a, 5).wrapping_add(f).wrapping_add(e).wrapping_add(kc).wrapping_add(
                w[i],
            );
            e = d;
            d = c;
            c = rotl(b, 30);
            b = a;
            a = temp;
            i += 1;
        }
        h0 = h0.wrapping_add(a);
        h1 = h1.wrapping_add(b);
        h2 = h2.wrapping_add(c);
        h3 = h3.wrapping_add(d);
        h4 = h4.wrapping_add(e);
        chunk_start += 64;
    }

    let mut r: Vec<u8> = Vec::new();
    let hs: [u32; 5] = [h0, h1, h2, h3, h4];
    let mut i: usize = 0;
    while i < 5
        invariant
            r@.len() == 4 * i,
            i <= 5,
        decreases 5 - i,
    {
        let h = hs[i];
        r.push(#[verifier::truncate] ((h >> 24) as u8));
        r.push(#[verifier::truncate] ((h >> 16) as u8));
        r.push(#[verifier::truncate] ((h >> 8) as u8));
        r.push(#[verifier::truncate] (h as u8));
        i += 1;
    }
    r
}

/// The base64 alphabet's character for a 6-bit value.
pub open spec fn spec_b64_char(v: u8) -> u8 {
    if v < 26 {
        (65 + v) as u8  // 'A'..'Z'
    } else if v < 52 {
        (97 + (v - 26)) as u8  // 'a'..'z'
    } else if v < 62 {
        (48 + (v - 52)) as u8  // '0'..'9'
    } else if v == 62 {
        43  // '+'
    } else {
        47  // '/'
    }
}

/// Standard base64, processed three input bytes at a time, with `=` padding.
pub open spec fn spec_base64(data: Seq<u8>) -> Seq<u8>
    decreases data.len(),
{
    if data.len() == 0 {
        Seq::empty()
    } else if data.len() == 1 {
        let b0 = data[0];
        seq![spec_b64_char(b0 >> 2), spec_b64_char((b0 & 0x03) << 4), 61u8, 61u8]
    } else if data.len() == 2 {
        let b0 = data[0];
        let b1 = data[1];
        seq![
            spec_b64_char(b0 >> 2),
            spec_b64_char(((b0 & 0x03) << 4) | (b1 >> 4)),
            spec_b64_char((b1 & 0x0F) << 2),
            61u8,
        ]
    } else {
        let b0 = data[0];
        let b1 = data[1];
        let b2 = data[2];
        seq![
            spec_b64_char(b0 >> 2),
            spec_b64_char(((b0 & 0x03) << 4) | (b1 >> 4)),
            spec_b64_char(((b1 & 0x0F) << 2) | (b2 >> 6)),
            spec_b64_char(b2 & 0x3F),
        ] + spec_base64(data.skip(3))
    }
}

/// Base64 yields four characters for every started triple of input bytes.
pub proof fn lemma_base64_len(data: Seq<u8>)
    ensures
        spec_base64(data).len() == 4 * ((data.len() + 2) / 3),
    decreases data.len(),
{
    if data.len() >= 3 {
        lemma_base64_len(data.skip(3));
    }
}

/// The character for a 6-bit value.
fn b64_char(v: u8) -> (r: u8)
    ensures
        r == spec_b64_char(v),
{
    if v < 26 {
        65 + v
    } else if v < 52 {
        97 + (v - 26)
    } else if v < 62 {
        48 + (v - 52)
    } else if v == 62 {
        43
    } else {
        47
    }
}

/// Encode `data` in standard base64.
pub fn base64_encode(data: &[u8]) -> (r: Vec<u8>)
    ensures
        r@ == spec_base64(data@),
{
    let mut out: Vec<u8> = Vec::new();
    let mut i: usize = 0;
    proof {
        assert(data@.skip(0) =~= data@);
    }
    while data.len() - i >= 3
        invariant
            i <= data.len(),
            out@ + spec_base64(data@.skip(i as int)) == spec_base64(data@),
        decreases data.len() - i,
    {
        let b0 = data[i];
        let b1 = data[i + 1];
        let b2 = data[i + 2];
        proof {
            let s = data@.skip(i as int);
            assert(s[0] == data@[i as int] && s[1] == data@[i + 1] && s[2] == data@[i + 2]);
            assert(s.skip(3) =~= data@.skip(i + 3));
        }
        out.push(b64_char(b0 >> 2));
        out.push(b64_char(((b0 & 0x03) << 4) | (b1 >> 4)));
        out.push(b64_char(((b1 & 0x0F) << 2) | (b2 >> 6)));
        out.push(b64_char(b2 & 0x3F));
        proof {
            assert(out@ + spec_base64(data@.skip(i + 3)) =~= spec_base64(data@));
        }
        i += 3;
    }
    let rem = data.len() - i;
    if rem == 1 {
        let b0 = data[i];
        proof {
            assert(data@.skip(i as int)[0] == data@[i as int]);
        }
        out.push(b64_char(b0 >> 2));
        out.push(b64_char((b0 & 0x03) << 4));
        out.push(61);
        out.push(61);
        proof {
            assert(out@ =~= spec_base64(data@));
        }
    } else if rem == 2 {
        let b0 = data[i];
        let b1 = data[i + 1];
        proof {
            let s = data@.skip(i as int);
            assert(s[0] == data@[i as int] && s[1] == data@[i + 1]);
        }
        out.push(b64_char(b0 >> 2));
        out.push(b64_char(((b0 & 0x03) << 4) | (b1 >> 4)));
        out.push(b64_char((b1 & 0x0F) << 2));
        out.push(61);
        proof {
            assert(out@ =~= spec_base64(data@));
        }
    } else {
        proof {
            assert(data@.skip(i as int).len() == 0);
            assert(out@ + Seq::<u8>::empty() =~= out@);
        }
    }
    out
}

/// The accept key for a client key: base64 of the SHA-1 digest of the key
/// joined with the protocol GUID. Twenty digest bytes encode to 28
/// characters.
pub fn calculate_accept_key(key: &[u8]) -> (r: Vec<u8>)
    ensures
        r@.len() == 28,
{
    let mut combined = vstd::slice::slice_to_vec(key);
    let guid: [u8; 36] = [
        50, 53, 56, 69, 65, 70, 65, 53, 45, 69, 57, 49, 52, 45, 52, 55, 68, 65, 45, 57, 53, 67,
        65, 45, 67, 53, 65, 66, 48, 68, 67, 56, 53, 66, 49, 49,
    ];
    combined.extend_from_slice(guid.as_slice());
    let digest = sha1(combined.as_slice());
    let r = base64_encode(digest.as_slice());
    proof {
        lemma_base64_len(digest@);
    }
    r
}

/// The client key of an upgradable request: present exactly when the
/// request carries `Upgrade: websocket`, a `Connection` containing
/// `upgrade` (both case-insensitively), `Sec-WebSocket-Version: 13`, and a
/// `Sec-WebSocket-Key`.
pub open spec fn spec_upgrade_key(hs: Seq<(Seq<u8>, Seq<u8>)>) -> Option<Seq<u8>> {
    // "Upgrade"
    let up = spec_header_lookup(hs, seq![85u8, 112u8, 103u8, 114u8, 97u8, 100u8, 101u8]);
    // "Connection"
    let conn = spec_header_lookup(
        hs,
        seq![67u8, 111u8, 110u8, 110u8, 101u8, 99u8, 116u8, 105u8, 111u8, 110u8],
    );
    // "Sec-WebSocket-Version"
    let ver = spec_header_lookup(
        hs,
        seq![83u8, 101u8, 99u8, 45u8, 87u8, 101u8, 98u8, 83u8, 111u8, 99u8, 107u8, 101u8, 116u8,
            45u8, 86u8, 101u8, 114u8, 115u8, 105u8, 111u8, 110u8],
    );
    // "Sec-WebSocket-Key"
    let key = spec_header_lookup(
        hs,
        seq![83u8, 101u8, 99u8, 45u8, 87u8, 101u8, 98u8, 83u8, 111u8, 99u8, 107u8, 101u8, 116u8,
            45u8, 75u8, 101u8, 121u8],
    );
    if up is Some
        // "websocket"
        && spec_lower_seq(up->Some_0) == seq![119u8, 101u8, 98u8, 115u8, 111u8, 99u8, 107u8,
            101u8, 116u8]
        && conn is Some
        // "upgrade"
        && spec_contains(spec_lower_seq(conn->Some_0), seq![117u8, 112u8, 103u8, 114u8, 97u8,
            100u8, 101u8])
        // "13"
        && ver == Some(seq![49u8, 51u8]) && key is Some {
        key
    } else {
        None
    }
}

/// The client key when the request may upgrade to a WebSocket, `None` when
/// it is to be served as ordinary HTTP.
pub fn upgrade_key(req: &Request) -> (r: Option<Vec<u8>>)
    ensures
        match spec_upgrade_key(crate::bytes::hdr_views(req.headers@)) {
            Some(k) => match r {
                Some(rk) => rk@ == k,
                None => false,
            },
            None => r is None,
        },
{
    let up_name: [u8; 7] = [85, 112, 103, 114, 97, 100, 101];  // "Upgrade"
    let conn_name: [u8; 10] = [67, 111, 110, 110, 101, 99, 116, 105, 111, 110];  // "Connection"
    // "Sec-WebSocket-Version"
    let ver_name: [u8; 21] = [
        83, 101, 99, 45, 87, 101, 98, 83, 111, 99, 107, 101, 116, 45, 86, 101, 114, 115, 105,
        111, 110,
    ];
    // "Sec-WebSocket-Key"
    let key_name: [u8; 17] = [
        83, 101, 99, 45, 87, 101, 98, 83, 111, 99, 107, 101, 116, 45, 75, 101, 121,
    ];
    let websocket: [u8; 9] = [119, 101, 98, 115, 111, 99, 107, 101, 116];  // "websocket"
    let upgrade: [u8; 7] = [117, 112, 103, 114, 97, 100, 101];  // "upgrade"
    let thirteen: [u8; 2] = [49, 51];  // "13"
    proof {
        assert(up_name@ =~= seq![85u8, 112u8, 103u8, 114u8, 97u8, 100u8, 101u8]);
        assert(conn_name@ =~= seq![67u8, 111u8, 110u8, 110u8, 101u8, 99u8, 116u8, 105u8, 111u8,
            110u8]);
        assert(ver_name@ =~= seq![83u8, 101u8, 99u8, 45u8, 87u8, 101u8, 98u8, 83u8, 111u8, 99u8,
            107u8, 101u8, 116u8, 45u8, 86u8, 101u8, 114u8, 115u8, 105u8, 111u8, 110u8]);
        assert(key_name@ =~= seq![83u8, 101u8, 99u8, 45u8, 87u8, 101u8, 98u8, 83u8, 111u8, 99u8,
            107u8, 101u8, 116u8, 45u8, 75u8, 101u8, 121u8]);
        assert(websocket@ =~= seq![119u8, 101u8, 98u8, 115u8, 111u8, 99u8, 107u8, 101u8, 116u8]);
        assert(upgrade@ =~= seq![117u8, 112u8, 103u8, 114u8, 97u8, 100u8, 101u8]);
        assert(thirteen@ =~= seq![49u8, 51u8]);
    }
    let up = match req.header(up_name.as_slice()) {
        Some(v) => v,
        None => {
            return None;
        },
    };
    let up_low = to_lower(up.as_slice());
    if !bytes_eq(up_low.as_slice(), websocket.as_slice()) {
        return None;
    }
    let conn = match req.header(conn_name.as_slice()) {
        Some(v) => v,
        None => {
            return None;
        },
    };
    let conn_low = to_lower(conn.as_slice());
    if !contains_bytes(conn_low.as_slice(), upgrade.as_slice()) {
        return None;
    }
    let ver = match req.header(ver_name.as_slice()) {
        Some(v) => v,
        None => {
            return None;
        },
    };
    if !bytes_eq(ver.as_slice(), thirteen.as_slice()) {
        return None;
    }
    match req.header(key_name.as_slice()) {
        Some(k) => Some(k),
        None => None,
    }
}

/// Bytes of the fixed part of the `101 Switching Protocols` response, up to
/// the accept key.
pub open spec fn switching_prefix() -> Seq<u8> {
    // "HTTP/1.1 101 Switching Protocols\r\nUpgrade: websocket\r\n
    //  Connection: Upgrade\r\nSec-WebSocket-Accept: "
    seq![72u8, 84u8, 84u8, 80u8, 47u8, 49u8, 46u8, 49u8, 32u8, 49u8, 48u8, 49u8, 32u8, 83u8,
        119u8, 105u8, 116u8, 99u8, 104u8, 105u8, 110u8, 103u8, 32u8, 80u8, 114u8, 111u8, 116u8,
        111u8, 99u8, 111u8, 108u8, 115u8, 13u8, 10u8, 85u8, 112u8, 103u8, 114u8, 97u8, 100u8,
        101u8, 58u8, 32u8, 119u8, 101u8, 98u8, 115u8, 111u8, 99u8, 107u8, 101u8, 116u8, 13u8,
        10u8, 67u8, 111u8, 110u8, 110u8, 101u8, 99u8, 116u8, 105u8, 111u8, 110u8, 58u8, 32u8,
        85u8, 112u8, 103u8, 114u8, 97u8, 100u8, 101u8, 13u8, 10u8, 83u8, 101u8, 99u8, 45u8, 87u8,
        101u8, 98u8, 83u8, 111u8, 99u8, 107u8, 101u8, 116u8, 45u8, 65u8, 99u8, 99u8, 101u8,
        112u8, 116u8, 58u8, 32u8]
}

/// The full `101 Switching Protocols` response for an accept key: the fixed
/// headers, the key, and the closing blank line.
pub fn handshake_response(accept_key: &[u8]) -> (r: Vec<u8>)
    ensures
        r@ == switching_prefix() + accept_key@ + seq![13u8, 10u8, 13u8, 10u8],
{
    let prefix: [u8; 97] = [
        72, 84, 84, 80, 47, 49, 46, 49, 32, 49, 48, 49, 32, 83, 119, 105, 116, 99, 104, 105, 110,
        103, 32, 80, 114, 111, 116, 111, 99, 111, 108, 115, 13, 10, 85, 112, 103, 114, 97, 100,
        101, 58, 32, 119, 101, 98, 115, 111, 99, 107, 101, 116, 13, 10, 67, 111, 110, 110, 101,
        99, 116, 105, 111, 110, 58, 32, 85, 112, 103, 114, 97, 100, 101, 13, 10, 83, 101, 99, 45,
        87, 101, 98, 83, 111, 99, 107, 101, 116, 45, 65, 99, 99, 101, 112, 116, 58, 32,
    ];
    let mut r = vstd::slice::slice_to_vec(prefix.as_slice());
    r.extend_from_slice(accept_key);
    r.push(13);
    r.push(10);
    r.push(13);
    r.push(10);
    proof {
        assert(r@ =~= switching_prefix() + accept_key@ + seq![13u8, 10u8, 13u8, 10u8]);
    }
    r
}

} // verus!
