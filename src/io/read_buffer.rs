use vstd::prelude::*;

use crate::io::bytes::{u16_of, u32_of, u64_of};

verus! {

/// A cursor over the input of a decoder.
pub struct ReadBuffer<'a> {
    pub buffer: &'a [u8],
    pub index: usize,
}

impl<'a> ReadBuffer<'a> {
    pub open spec fn wf(&self) -> bool {
        self.index <= self.buffer@.len()
    }

    /// What is left to read.
    pub open spec fn rest(&self) -> Seq<u8> {
        self.buffer@.skip(self.index as int)
    }

    pub fn new(buffer: &'a [u8]) -> (r: ReadBuffer<'a>)
        ensures
            r.wf(),
            r.buffer@ == buffer@,
            r.index == 0,
    {
        ReadBuffer { buffer, index: 0 }
    }

    pub fn remaining(&self) -> (r: usize)
        requires
            self.wf(),
        ensures
            r == self.buffer@.len() - self.index,
    {
        self.buffer.len() - self.index
    }

    /// Takes the next `n` bytes.
    pub fn read(&mut self, n: usize) -> (r: &'a [u8])
        requires
            old(self).wf(),
            old(self).index + n <= old(self).buffer@.len(),
        ensures
            final(self).wf(),
            final(self).buffer == old(self).buffer,
            final(self).index == old(self).index + n,
            r@ == old(self).rest().take(n as int),
    {
        let len = self.buffer.len();
        let end_index = self.index + n;
        let array = vstd::slice::slice_subrange(self.buffer, self.index, end_index);
        self.index = end_index;
        proof {
            assert(array@ =~= old(self).rest().take(n as int));
        }
        array
    }

    /// Steps back over the last `n` bytes read.
    pub fn rewind(&mut self, n: usize)
        requires
            old(self).wf(),
            n <= old(self).index,
        ensures
            final(self).wf(),
            final(self).buffer == old(self).buffer,
            final(self).index == old(self).index - n,
    {
        self.index = self.index - n;
    }

    /// Takes the next `n` bytes as a little-endian integer (at most eight bytes).
    pub fn read_le(&mut self, n: usize) -> (r: u64)
        requires
            old(self).wf(),
            n <= 8,
            old(self).index + n <= old(self).buffer@.len(),
        ensures
            final(self).wf(),
            final(self).buffer == old(self).buffer,
            final(self).index == old(self).index + n,
            r == u64_of(old(self).rest(), n as nat),
    {
        let len = self.buffer.len();
        let mut value: u64 = 0;
        let mut i: usize = 0;
        while i < n
            invariant
                len == self.buffer@.len(),
                self.wf(),
                self.buffer == old(self).buffer,
                self.index == old(self).index,
                n <= 8,
                self.index + n <= self.buffer@.len(),
                i <= n,
                value == u64_of(self.rest(), i as nat),
            decreases n - i,
        {
            let byte = self.buffer[self.index + i];
            assert(byte == self.rest()[i as int]);
            value = value | ((byte as u64) << ((8 * i) as u64));
            i += 1;
        }
        self.index = self.index + n;
        value
    }

    pub fn read_u64_le(&mut self) -> (r: u64)
        requires
            old(self).wf(),
            old(self).index + 8 <= old(self).buffer@.len(),
        ensures
            final(self).wf(),
            final(self).buffer == old(self).buffer,
            final(self).index == old(self).index + 8,
            r == u64_of(old(self).rest(), 8),
    {
        self.read_le(8)
    }

    pub fn read_u32_le(&mut self) -> (r: u32)
        requires
            old(self).wf(),
            old(self).index + 4 <= old(self).buffer@.len(),
        ensures
            final(self).wf(),
            final(self).buffer == old(self).buffer,
            final(self).index == old(self).index + 4,
            r == u32_of(old(self).rest()),
    {
        let i = self.index;
        let b0 = self.buffer[i];
        let b1 = self.buffer[i + 1];
        let b2 = self.buffer[i + 2];
        let b3 = self.buffer[i + 3];
        self.index = i + 4;
        (b0 as u32) | ((b1 as u32) << 8u32) | ((b2 as u32) << 16u32) | ((b3 as u32) << 24u32)
    }

    pub fn read_u16_le(&mut self) -> (r: u16)
        requires
            old(self).wf(),
            old(self).index + 2 <= old(self).buffer@.len(),
        ensures
            final(self).wf(),
            final(self).buffer == old(self).buffer,
            final(self).index == old(self).index + 2,
            r == u16_of(old(self).rest()),
    {
        let i = self.index;
        let b0 = self.buffer[i];
        let b1 = self.buffer[i + 1];
        self.index = i + 2;
        (b0 as u16) | ((b1 as u16) << 8u16)
    }
}

} // verus!
