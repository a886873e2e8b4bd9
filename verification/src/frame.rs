//! WebSocket frame codec.
//!
//! A frame is FIN plus opcode in the first byte, a mask flag and a 7-bit
//! length in the second, a 16- or 64-bit big-endian extension when the short
//! field holds 126 or 127, an optional 4-byte mask key, and the payload.
//! Masked payloads are XORed with the key, byte `i` against `key[i % 4]`;
//! [`lemma_mask_round_trip`] proves the XOR is its own inverse. Frames the
//! server writes are never masked.

use vstd::prelude::*;
use vstd::string::StringSliceAdditionalSpecFns;
use crate::bytes::sub_bytes;

verus! {

/// Frame opcodes. The wire values 3 to 7 and 11 to 15 are protocol-invalid
/// and rejected by the decoder.
#[derive(Debug, Clone, Copy, PartialEq, Eq, Structural)]
pub enum OpCode {
    /// A continuation of the previous frame's message.
    Continuation,
    /// A text message.
    Text,
    /// A binary message.
    Binary,
    /// A connection close.
    Close,
    /// A liveness probe.
    Ping,
    /// The answer to a probe.
    Pong,
}

/// The wire value of an opcode.
pub open spec fn opcode_value(op: OpCode) -> u8 {
    match op {
        OpCode::Continuation => 0x0,
        OpCode::Text => 0x1,
        OpCode::Binary => 0x2,
        OpCode::Close => 0x8,
        OpCode::Ping => 0x9,
        OpCode::Pong => 0xA,
    }
}

/// The opcode of a wire value, if it is a valid one.
pub open spec fn spec_opcode_from(v: u8) -> Option<OpCode> {
    if v == 0x0 {
        Some(OpCode::Continuation)
    } else if v == 0x1 {
        Some(OpCode::Text)
    } else if v == 0x2 {
        Some(OpCode::Binary)
    } else if v == 0x8 {
        Some(OpCode::Close)
    } else if v == 0x9 {
        Some(OpCode::Ping)
    } else if v == 0xA {
        Some(OpCode::Pong)
    } else {
        None
    }
}

impl OpCode {
    /// The wire value of this opcode.
    pub fn value(&self) -> (r: u8)
        ensures
            r == opcode_value(*self),
    {
        match self {
            OpCode::Continuation => 0x0,
            OpCode::Text => 0x1,
            OpCode::Binary => 0x2,
            OpCode::Close => 0x8,
            OpCode::Ping => 0x9,
            OpCode::Pong => 0xA,
        }
    }

    /// Recognize a wire value.
    pub fn from_value(v: u8) -> (r: Option<OpCode>)
        ensures
            r == spec_opcode_from(v),
    {
        if v == 0x0 {
            Some(OpCode::Continuation)
        } else if v == 0x1 {
            Some(OpCode::Text)
        } else if v == 0x2 {
            Some(OpCode::Binary)
        } else if v == 0x8 {
            Some(OpCode::Close)
        } else if v == 0x9 {
            Some(OpCode::Ping)
        } else if v == 0xA {
            Some(OpCode::Pong)
        } else {
            None
        }
    }
}

/// Why a buffer does not (yet) decode to a frame.
#[derive(Debug, Clone, Copy, PartialEq, Eq, Structural)]
pub enum FrameError {
    /// More bytes must be read before the frame is complete.
    Incomplete,
    /// The opcode value is protocol-invalid.
    InvalidOpcode,
}

/// One WebSocket frame.
#[derive(Debug)]
pub struct Frame {
    /// Whether this frame ends its message.
    pub fin: bool,
    /// What the frame carries.
    pub opcode: OpCode,
    /// The payload, unmasked.
    pub payload: Vec<u8>,
}

/// `256^k`, the number of values of a `k`-byte string.
pub open spec fn pow256(k: nat) -> nat
    decreases k,
{
    if k == 0 {
        1
    } else {
        256 * pow256((k - 1) as nat)
    }
}

/// `pow256` grows with its argument.
proof fn lemma_pow256_le(a: nat, b: nat)
    requires
        a <= b,
    ensures
        pow256(a) <= pow256(b),
    decreases b,
{
    if a < b {
        lemma_pow256_le(a, (b - 1) as nat);
        assert(pow256(b) == 256 * pow256((b - 1) as nat));
        assert(pow256((b - 1) as nat) <= 256 * pow256((b - 1) as nat)) by (nonlinear_arith)
            requires
                pow256((b - 1) as nat) >= 0,
        ;
    }
}

/// The value of a big-endian byte string.
pub open spec fn be_value(s: Seq<u8>) -> nat
    decreases s.len(),
{
    if s.len() == 0 {
        0
    } else {
        (be_value(s.drop_last()) * 256 + s.last()) as nat
    }
}

/// `payload` XORed against the cycling 4-byte `key`.
pub open spec fn spec_mask(payload: Seq<u8>, key: Seq<u8>) -> Seq<u8> {
    Seq::new(payload.len(), |i: int| payload[i] ^ key[i % 4])
}

/// Masking twice with one key gives the original payload back: XOR against
/// the same byte is its own inverse.
pub proof fn lemma_mask_round_trip(payload: Seq<u8>, key: Seq<u8>)
    requires
        key.len() == 4,
    ensures
        spec_mask(spec_mask(payload, key), key) == payload,
{
    let once = spec_mask(payload, key);
    let twice = spec_mask(once, key);
    assert forall|i: int| 0 <= i < payload.len() implies twice[i] == payload[i] by {
        let p = payload[i];
        let k = key[i % 4];
        assert((p ^ k) ^ k == p) by (bit_vector);
    }
    assert(twice =~= payload);
}

/// The length field bytes for a payload of `len` bytes: the 7-bit field
/// itself, or the marker 126 with 16 bits, or the marker 127 with 64 bits,
/// big-endian.
pub open spec fn spec_len_field(len: nat) -> Seq<u8> {
    if len < 126 {
        seq![len as u8]
    } else if len < 65536 {
        seq![126u8, (len / 256) as u8, (len % 256) as u8]
    } else {
        seq![
            127u8,
            ((len / 0x100000000000000) % 256) as u8,
            ((len / 0x1000000000000) % 256) as u8,
            ((len / 0x10000000000) % 256) as u8,
            ((len / 0x100000000) % 256) as u8,
            ((len / 0x1000000) % 256) as u8,
            ((len / 0x10000) % 256) as u8,
            ((len / 0x100) % 256) as u8,
            (len % 256) as u8,
        ]
    }
}

/// The wire form of an unmasked frame, as the server writes it: FIN and
/// opcode, then the length field with its mask bit clear, then the payload.
pub open spec fn spec_encode_frame(fin: bool, op: OpCode, payload: Seq<u8>) -> Seq<u8> {
    seq![((if fin { 0x80u8 } else { 0x00u8 }) | opcode_value(op)) as u8]
        + spec_len_field(payload.len()) + payload
}

impl Frame {
    /// A final text frame carrying the bytes of `text`.
    pub fn text(text: &str) -> (r: Frame)
        ensures
            r.fin == true,
            r.opcode == OpCode::Text,
            r.payload@ == text.spec_bytes(),
    {
        let bytes = text.as_bytes();
        Frame { fin: true, opcode: OpCode::Text, payload: vstd::slice::slice_to_vec(bytes) }
    }

    /// A final binary frame carrying `data`.
    pub fn binary(data: Vec<u8>) -> (r: Frame)
        ensures
            r.fin == true,
            r.opcode == OpCode::Binary,
            r.payload@ == data@,
    {
        Frame { fin: true, opcode: OpCode::Binary, payload: data }
    }

    /// An empty close frame.
    pub fn close() -> (r: Frame)
        ensures
            r.fin == true,
            r.opcode == OpCode::Close,
            r.payload@.len() == 0,
    {
        Frame { fin: true, opcode: OpCode::Close, payload: Vec::new() }
    }

    /// A ping frame carrying `data`.
    pub fn ping(data: Vec<u8>) -> (r: Frame)
        ensures
            r.fin == true,
            r.opcode == OpCode::Ping,
            r.payload@ == data@,
    {
        Frame { fin: true, opcode: OpCode::Ping, payload: data }
    }

    /// A pong frame carrying `data`, the reply to a ping.
    pub fn pong(data: Vec<u8>) -> (r: Frame)
        ensures
            r.fin == true,
            r.opcode == OpCode::Pong,
            r.payload@ == data@,
    {
        Frame { fin: true, opcode: OpCode::Pong, payload: data }
    }

    /// Serialize the frame onto the end of `out`. The mask bit is never set:
    /// server-to-client frames are unmasked.
    pub fn write_to(&self, out: &mut Vec<u8>)
        ensures
            final(out)@ == old(out)@ + spec_encode_frame(self.fin, self.opcode, self.payload@),
    {
        let ghost start = out@;
        let first: u8 = if self.fin {
            0x80u8 | self.opcode.value()
        } else {
            0x00u8 | self.opcode.value()
        };
        out.push(first);
        let len = self.payload.len();
        if len < 126 {
            out.push(len as u8);
        } else if len < 65536 {
            out.push(126);
            out.push((len / 256) as u8);
            out.push((len % 256) as u8);
        } else {
            out.push(127);
            out.push(((len as u64 / 0x100000000000000) % 256) as u8);
            out.push(((len as u64 / 0x1000000000000) % 256) as u8);
            out.push(((len as u64 / 0x10000000000) % 256) as u8);
            out.push(((len as u64 / 0x100000000) % 256) as u8);
            out.push(((len as u64 / 0x1000000) % 256) as u8);
            out.push(((len as u64 / 0x10000) % 256) as u8);
            out.push(((len as u64 / 0x100) % 256) as u8);
            out.push((len as u64 % 256) as u8);
        }
        out.extend_from_slice(self.payload.as_slice());
        proof {
            assert(out@ =~= start + spec_encode_frame(self.fin, self.opcode, self.payload@));
        }
    }

    /// Decode one frame from the front of `buf`, yielding it and the number
    /// of bytes it used. Masked payloads come back unmasked.
    pub fn read_from(buf: &[u8]) -> (r: Result<(Frame, usize), FrameError>)
        ensures
            match spec_decode_frame(buf@) {
                Ok((fin, op, payload, consumed)) => match r {
                    Ok((frame, used)) => {
                        &&& frame.fin == fin
                        &&& frame.opcode == op
                        &&& frame.payload@ == payload
                        &&& used == consumed
                    },
                    Err(_) => false,
                },
                Err(e) => r == Err::<(Frame, usize), FrameError>(e),
            },
    {
        if buf.len() < 2 {
            return Err(FrameError::Incomplete);
        }
        let b0 = buf[0];
        let b1 = buf[1];
        let fin = (b0 & 0x80) != 0;
        let op = match OpCode::from_value(b0 & 0x0F) {
            Some(op) => op,
            None => {
                return Err(FrameError::InvalidOpcode);
            },
        };
        let len7 = b1 & 0x7F;
        proof {
            assert(b1 & 0x7F < 128) by (bit_vector);
        }
        // Payload length and the offset just past the length field.
        let (pl, off): (u64, usize) = if len7 == 126 {
            if buf.len() < 4 {
                return Err(FrameError::Incomplete);
            }
            let v = (buf[2] as u64) * 256 + (buf[3] as u64);
            proof {
                assert(buf@.subrange(2, 4).drop_last() =~= seq![buf@[2]]);
                assert(seq![buf@[2]].drop_last() =~= Seq::<u8>::empty());
                assert(be_value(Seq::<u8>::empty()) == 0);
                assert(be_value(seq![buf@[2]]) == buf@[2]);
                assert(be_value(buf@.subrange(2, 4)) == buf@[2] * 256 + buf@[3]);
            }
            (v, 4)
        } else if len7 == 127 {
            if buf.len() < 10 {
                return Err(FrameError::Incomplete);
            }
            let mut v: u64 = 0;
            let mut k: usize = 2;
            proof {
                assert(buf@.subrange(2, 2).len() == 0);
            }
            while k < 10
                invariant
                    2 <= k <= 10,
                    buf@.len() >= 10,
                    v == be_value(buf@.subrange(2, k as int)),
                decreases 10 - k,
            {
                proof {
                    assert(buf@.subrange(2, k + 1).drop_last() =~= buf@.subrange(2, k as int));
                    lemma_be_value_bound(buf@.subrange(2, k as int));
                    lemma_pow256_le((k - 2) as nat, 7);
                    assert(pow256(7) == 0x100000000000000) by {
                        assert(pow256(0) == 1);
                        assert(pow256(1) == 256);
                        assert(pow256(2) == 65536);
                        assert(pow256(3) == 0x1000000);
                        assert(pow256(4) == 0x100000000);
                        assert(pow256(5) == 0x10000000000);
                        assert(pow256(6) == 0x1000000000000);
                    }
                    assert(v < 0x100000000000000);
                }
                v = v * 256 + (buf[k] as u64);
                k += 1;
            }
            (v, 10)
        } else {
            (len7 as u64, 2)
        };
        let masked = (b1 & 0x80) != 0;
        let moff = if masked {
            off + 4
        } else {
            off
        };
        if buf.len() < moff {
            return Err(FrameError::Incomplete);
        }
        if pl > (buf.len() - moff) as u64 {
            return Err(FrameError::Incomplete);
        }
        let plu = pl as usize;
        let mut payload = sub_bytes(buf, moff, moff + plu);
        if masked {
            let key: [u8; 4] = [buf[off], buf[off + 1], buf[off + 2], buf[off + 3]];
            proof {
                assert(key@ =~= buf@.subrange(off as int, off as int + 4));
            }
            apply_mask(&mut payload, &key);
        }
        let used = moff + plu;
        proof {
            let spec_pl = buf@.subrange(moff as int, moff as int + pl as int);
            if masked {
                assert(payload@ == spec_mask(spec_pl, buf@.subrange(off as int, off as int + 4)));
            } else {
                assert(payload@ == spec_pl);
            }
        }
        Ok((Frame { fin, opcode: op, payload }, used))
    }
}

/// A big-endian string of `k` bytes is below `256^k`.
proof fn lemma_be_value_bound(s: Seq<u8>)
    ensures
        be_value(s) < pow256(s.len()),
    decreases s.len(),
{
    if s.len() > 0 {
        lemma_be_value_bound(s.drop_last());
        assert(be_value(s.drop_last()) * 256 + s.last() < 256 * pow256((s.len() - 1) as nat))
            by (nonlinear_arith)
            requires
                be_value(s.drop_last()) < pow256((s.len() - 1) as nat),
                s.last() < 256,
        ;
    }
}

/// The payload length and the offset just past the length field, when the
/// buffer holds enough bytes to tell.
pub open spec fn spec_frame_len(bytes: Seq<u8>) -> Option<(nat, nat)> {
    let len7 = bytes[1] & 0x7F;
    if len7 == 126 {
        if bytes.len() >= 4 {
            Some((be_value(bytes.subrange(2, 4)), 4))
        } else {
            None
        }
    } else if len7 == 127 {
        if bytes.len() >= 10 {
            Some((be_value(bytes.subrange(2, 10)), 10))
        } else {
            None
        }
    } else {
        Some((len7 as nat, 2))
    }
}

/// Decode one frame from the front of `bytes`: FIN, opcode, unmasked
/// payload, and the bytes consumed.
pub open spec fn spec_decode_frame(bytes: Seq<u8>) -> Result<(bool, OpCode, Seq<u8>, nat), FrameError> {
    if bytes.len() < 2 {
        Err(FrameError::Incomplete)
    } else {
        match spec_opcode_from(bytes[0] & 0x0F) {
            None => Err(FrameError::InvalidOpcode),
            Some(op) => match spec_frame_len(bytes) {
                None => Err(FrameError::Incomplete),
                Some((pl, off)) => {
                    let masked = (bytes[1] & 0x80) != 0;
                    let moff = if masked {
                        off + 4
                    } else {
                        off
                    };
                    if bytes.len() < moff + pl {
                        Err(FrameError::Incomplete)
                    } else {
                        let raw = bytes.subrange(moff as int, (moff + pl) as int);
                        let payload = if masked {
                            spec_mask(raw, bytes.subrange(off as int, (off + 4) as int))
                        } else {
                            raw
                        };
                        Ok(((bytes[0] & 0x80) != 0, op, payload, moff + pl))
                    }
                },
            },
        }
    }
}

/// Decoding what the server encoded yields the frame back: FIN, opcode and
/// payload survive the wire byte for byte, and the whole encoding is
/// consumed. Payloads are bounded by what a frame can carry.
pub proof fn lemma_frame_round_trip(fin: bool, op: OpCode, payload: Seq<u8>)
    requires
        payload.len() <= u64::MAX,
    ensures
        spec_decode_frame(spec_encode_frame(fin, op, payload)) == Ok::<_, FrameError>(
            (fin, op, payload, spec_encode_frame(fin, op, payload).len()),
        ),
{
    let v = opcode_value(op);
    let first = (if fin { 0x80u8 } else { 0x00u8 }) | v;
    let bytes = spec_encode_frame(fin, op, payload);
    let lf = spec_len_field(payload.len());
    assert(v <= 0xA);
    assert(bytes[0] == first);
    assert((first & 0x0F) == v && ((first & 0x80) != 0) == fin) by (bit_vector)
        requires
            v <= 0xA,
            first == (if fin { 0x80u8 } else { 0x00u8 }) | v,
    ;
    assert(spec_opcode_from(first & 0x0F) == Some(op));
    let len = payload.len();
    if len < 126 {
        let b1 = len as u8;
        assert(bytes[1] == b1);
        assert((b1 & 0x7F) == b1 && (b1 & 0x80) == 0) by (bit_vector)
            requires
                b1 < 126,
        ;
        assert(bytes.subrange(2, 2 + len as int) =~= payload);
    } else if len < 65536 {
        assert(bytes[1] == 126);
        assert((126u8 & 0x7F) == 126 && (126u8 & 0x80) == 0) by (bit_vector);
        assert(bytes[2] == (len / 256) as u8 && bytes[3] == (len % 256) as u8);
        let sub = bytes.subrange(2, 4);
        assert(sub.drop_last() =~= seq![bytes[2]]);
        assert(seq![bytes[2]].drop_last() =~= Seq::<u8>::empty());
        assert(be_value(Seq::<u8>::empty()) == 0);
        assert(be_value(seq![bytes[2]]) == bytes[2]);
        assert(be_value(sub) == bytes[2] * 256 + bytes[3]);
        assert(len / 256 < 256);
        assert(len / 256 * 256 + len % 256 == len) by {
            vstd::arithmetic::div_mod::lemma_fundamental_div_mod(len as int, 256);
        }
        assert(be_value(sub) == len);
        assert(bytes.len() == 4 + len);
        assert(bytes.subrange(4, 4 + len as int) =~= payload);
    } else {
        assert(bytes[1] == 127);
        assert((127u8 & 0x7F) == 127 && (127u8 & 0x80) == 0) by (bit_vector);
        let sub = bytes.subrange(2, 10);
        lemma_be_recompose(len);
        assert(sub =~= seq![
            ((len / 0x100000000000000) % 256) as u8,
            ((len / 0x1000000000000) % 256) as u8,
            ((len / 0x10000000000) % 256) as u8,
            ((len / 0x100000000) % 256) as u8,
            ((len / 0x1000000) % 256) as u8,
            ((len / 0x10000) % 256) as u8,
            ((len / 0x100) % 256) as u8,
            (len % 256) as u8,
        ]);
        assert(be_value(sub) == len);
        assert(bytes.len() == 10 + len);
        assert(bytes.subrange(10, 10 + len as int) =~= payload);
    }
}

/// A value below `2^64` is recomposed from its eight big-endian bytes.
proof fn lemma_be_recompose(n: nat)
    requires
        n <= u64::MAX,
    ensures
        be_value(seq![
            ((n / 0x100000000000000) % 256) as u8,
            ((n / 0x1000000000000) % 256) as u8,
            ((n / 0x10000000000) % 256) as u8,
            ((n / 0x100000000) % 256) as u8,
            ((n / 0x1000000) % 256) as u8,
            ((n / 0x10000) % 256) as u8,
            ((n / 0x100) % 256) as u8,
            (n % 256) as u8,
        ]) == n,
{
    let s = seq![
        ((n / 0x100000000000000) % 256) as u8,
        ((n / 0x1000000000000) % 256) as u8,
        ((n / 0x10000000000) % 256) as u8,
        ((n / 0x100000000) % 256) as u8,
        ((n / 0x1000000) % 256) as u8,
        ((n / 0x10000) % 256) as u8,
        ((n / 0x100) % 256) as u8,
        (n % 256) as u8,
    ];
    // Unfold the big-endian value byte by byte.
    assert(s.drop_last() =~= s.take(7));
    assert(s.take(7).drop_last() =~= s.take(6));
    assert(s.take(6).drop_last() =~= s.take(5));
    assert(s.take(5).drop_last() =~= s.take(4));
    assert(s.take(4).drop_last() =~= s.take(3));
    assert(s.take(3).drop_last() =~= s.take(2));
    assert(s.take(2).drop_last() =~= s.take(1));
    assert(s.take(1).drop_last() =~= Seq::<u8>::empty());
    assert(be_value(Seq::<u8>::empty()) == 0);
    // Each quotient's division by 256 steps one byte up.
    assert(n / 0x100000000000000 < 256);
    lemma_div_step(n, 0x100, 0x100000000000000);
    lemma_div_step(n, 0x100, 0x1000000000000);
    lemma_div_step(n, 0x100, 0x10000000000);
    lemma_div_step(n, 0x100, 0x100000000);
    lemma_div_step(n, 0x100, 0x1000000);
    lemma_div_step(n, 0x100, 0x10000);
    lemma_div_step(n, 0x100, 0x100);
    assert(be_value(s.take(1)) == (n / 0x100000000000000) % 256);
    assert(be_value(s.take(2)) == ((n / 0x100000000000000) % 256) * 256 + (n
        / 0x1000000000000) % 256);
    assert(be_value(s.take(2)) == (n / 0x1000000000000) % 0x10000) by {
        lemma_mod_fold(n / 0x1000000000000, 0x100);
    }
    assert(be_value(s.take(3)) == (n / 0x10000000000) % 0x1000000) by {
        lemma_mod_fold(n / 0x10000000000, 0x10000);
    }
    assert(be_value(s.take(4)) == (n / 0x100000000) % 0x100000000) by {
        lemma_mod_fold(n / 0x100000000, 0x1000000);
    }
    assert(be_value(s.take(5)) == (n / 0x1000000) % 0x10000000000) by {
        lemma_mod_fold(n / 0x1000000, 0x100000000);
    }
    assert(be_value(s.take(6)) == (n / 0x10000) % 0x1000000000000) by {
        lemma_mod_fold(n / 0x10000, 0x10000000000);
    }
    assert(be_value(s.take(7)) == (n / 0x100) % 0x100000000000000) by {
        lemma_mod_fold(n / 0x100, 0x1000000000000);
    }
    assert(be_value(s) == n % 0x10000000000000000) by {
        lemma_mod_fold(n, 0x100000000000000);
    }
    assert(n % 0x10000000000000000 == n) by {
        vstd::arithmetic::div_mod::lemma_small_mod(n, 0x10000000000000000);
    }
}

/// Dividing twice composes: `(n / b) / a == n / (a * b)`.
proof fn lemma_div_step(n: nat, a: nat, b: nat)
    requires
        a > 0,
        b > 0,
    ensures
        n / b / a == n / (a * b),
{
    vstd::arithmetic::div_mod::lemma_div_denominator(n as int, b as int, a as int);
    assert(b * a == a * b) by (nonlinear_arith);
}

/// Folding one more base-256 digit onto an accumulated value:
/// `((x / 256) % z) * 256 + x % 256 == x % (256 * z)`.
proof fn lemma_mod_fold(x: nat, z: nat)
    requires
        z > 0,
    ensures
        ((x / 256) % z) * 256 + (x % 256) == x % (256 * z),
{
    vstd::arithmetic::div_mod::lemma_breakdown(x as int, 256, z as int);
}

/// XOR `payload` in place against the cycling 4-byte `key`.
pub fn apply_mask(payload: &mut Vec<u8>, key: &[u8; 4])
    ensures
        final(payload)@ == spec_mask(old(payload)@, key@),
{
    let n = payload.len();
    let mut i: usize = 0;
    while i < n
        invariant
            i <= n == payload.len(),
            payload@.len() == old(payload)@.len(),
            forall|j: int| 0 <= j < i ==> payload@[j] == old(payload)@[j] ^ key@[j % 4],
            forall|j: int| i <= j < n ==> payload@[j] == old(payload)@[j],
        decreases n - i,
    {
        let b = payload[i];
        let masked = b ^ key[i % 4];
        payload[i] = masked;
        i += 1;
    }
    proof {
        assert(payload@ =~= spec_mask(old(payload)@, key@));
    }
}

} // verus!
