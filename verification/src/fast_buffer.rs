//! Reusable output buffers for response writing, and a per-worker pool of
//! them so a worker can serve many exchanges without reallocating.

use vstd::prelude::*;
use crate::decimal::{spec_decimal, decimal_u64};

verus! {

/// How many buffers one pool keeps for reuse.
pub const POOL_KEEP: usize = 16;

/// An append-only byte buffer a response is serialized into.
pub struct FastBuffer {
    /// The bytes written so far.
    pub data: Vec<u8>,
}

impl FastBuffer {
    /// An empty buffer.
    pub fn new() -> (r: FastBuffer)
        ensures
            r.data@.len() == 0,
    {
        FastBuffer { data: Vec::new() }
    }

    /// An empty buffer with room for `capacity` bytes already reserved.
    pub fn with_capacity(capacity: usize) -> (r: FastBuffer)
        ensures
            r.data@.len() == 0,
    {
        FastBuffer { data: Vec::with_capacity(capacity) }
    }

    /// Append `data` to the buffer.
    pub fn write_all(&mut self, data: &[u8])
        ensures
            final(self).data@ == old(self).data@ + data@,
    {
        self.data.extend_from_slice(data);
    }

    /// The bytes written so far.
    pub fn as_bytes(&self) -> (r: &[u8])
        ensures
            r@ == self.data@,
    {
        self.data.as_slice()
    }

    /// Empty the buffer for reuse.
    pub fn clear(&mut self)
        ensures
            final(self).data@.len() == 0,
    {
        self.data.clear();
    }

    /// Copy the buffer's contents onto the end of `out` and say how many
    /// bytes that was.
    pub fn write_to(&self, out: &mut Vec<u8>) -> (r: usize)
        ensures
            final(out)@ == old(out)@ + self.data@,
            r == self.data@.len(),
    {
        out.extend_from_slice(self.data.as_slice());
        self.data.len()
    }
}

/// A worker's stock of reusable buffers.
pub struct BufferPool {
    /// Idle buffers, ready to hand out.
    pub bufs: Vec<FastBuffer>,
}

impl BufferPool {
    /// An empty pool.
    pub fn new() -> (r: BufferPool)
        ensures
            r.bufs@.len() == 0,
    {
        BufferPool { bufs: Vec::new() }
    }

    /// Take a buffer from the pool, or a fresh one when the pool is empty.
    pub fn get_buffer(&mut self) -> (r: FastBuffer)
        ensures
            old(self).bufs@.len() > 0 ==> r == old(self).bufs@.last() && final(self).bufs@ == old(
                self,
            ).bufs@.drop_last(),
            old(self).bufs@.len() == 0 ==> r.data@.len() == 0 && final(self).bufs@ == old(
                self,
            ).bufs@,
    {
        match self.bufs.pop() {
            Some(b) => b,
            None => FastBuffer::new(),
        }
    }

    /// Return a buffer for reuse: it is cleared, and kept only while the
    /// pool holds fewer than its limit.
    pub fn return_buffer(&mut self, buf: FastBuffer)
        ensures
            old(self).bufs@.len() < POOL_KEEP ==> final(self).bufs@.len() == old(
                self,
            ).bufs@.len() + 1 && final(self).bufs@.last().data@.len() == 0,
            old(self).bufs@.len() >= POOL_KEEP ==> final(self).bufs@ == old(self).bufs@,
    {
        let mut buf = buf;
        buf.clear();
        if self.bufs.len() < POOL_KEEP {
            self.bufs.push(buf);
        }
    }
}

/// Render `n` in decimal, for length headers.
pub fn format_usize(n: usize) -> (r: Vec<u8>)
    ensures
        r@ == spec_decimal(n as nat),
{
    decimal_u64(n as u64)
}

} // verus!
