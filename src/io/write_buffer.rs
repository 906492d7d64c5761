use vstd::prelude::*;

use crate::io::bytes::le_bytes;
use crate::io::write_signature::WriteSignature;

verus! {

/// A growing output stream with room for back-patching: a block's signature
/// is reserved first and written once the block is done.
pub struct WriteBuffer {
    pub buffer: Vec<u8>,
}

impl View for WriteBuffer {
    type V = Seq<u8>;

    open spec fn view(&self) -> Seq<u8> {
        self.buffer@
    }
}

/// `s` with `b` written over it from position `at` on.
pub open spec fn overwrite(s: Seq<u8>, at: int, b: Seq<u8>) -> Seq<u8> {
    s.take(at) + b + s.skip(at + b.len())
}

impl WriteBuffer {
    pub fn new() -> (r: WriteBuffer)
        ensures
            r@ == Seq::<u8>::empty(),
    {
        WriteBuffer { buffer: Vec::new() }
    }

    /// The number of bytes written so far.
    pub fn index(&self) -> (r: usize)
        ensures
            r == self@.len(),
    {
        self.buffer.len()
    }

    /// Writes `bytes` over what stands at `index`; answers the position just past them.
    pub fn write_at(&mut self, index: usize, bytes: &[u8]) -> (r: usize)
        requires
            index + bytes@.len() <= old(self)@.len(),
        ensures
            final(self)@ == overwrite(old(self)@, index as int, bytes@),
            r == index + bytes@.len(),
    {
        let len = self.buffer.len();
        let mut i: usize = 0;
        while i < bytes.len()
            invariant
                len == old(self)@.len(),
                index + bytes@.len() <= old(self)@.len(),
                i <= bytes@.len(),
                self@ == overwrite(old(self)@, index as int, bytes@.take(i as int)),
            decreases bytes@.len() - i,
        {
            self.buffer.set(index + i, bytes[i]);
            i += 1;
            assert(self@ =~= overwrite(old(self)@, index as int, bytes@.take(i as int)));
        }
        assert(bytes@.take(i as int) =~= bytes@);
        index + i
    }

    /// Writes the `significant_bytes` low bytes of the signature, least
    /// significant first, at the place reserved for it.
    pub fn ink(&mut self, signature: &WriteSignature, significant_bytes: usize)
        requires
            significant_bytes <= 8,
            signature.pos + significant_bytes <= old(self)@.len(),
        ensures
            final(self)@ == overwrite(
                old(self)@,
                signature.pos as int,
                le_bytes(signature.value, significant_bytes as nat),
            ),
    {
        let len = self.buffer.len();
        let mut i: usize = 0;
        while i < significant_bytes
            invariant
                len == old(self)@.len(),
                significant_bytes <= 8,
                signature.pos + significant_bytes <= old(self)@.len(),
                i <= significant_bytes,
                self@ == overwrite(
                    old(self)@,
                    signature.pos as int,
                    le_bytes(signature.value, i as nat),
                ),
            decreases significant_bytes - i,
        {
            let byte = #[verifier::truncate] ((signature.value >> ((8 * i) as u64)) as u8);
            self.buffer.set(signature.pos + i, byte);
            i += 1;
            assert(self@ =~= overwrite(
                old(self)@,
                signature.pos as int,
                le_bytes(signature.value, i as nat),
            ));
        }
    }

    /// Appends `bytes`.
    pub fn push(&mut self, bytes: &[u8])
        ensures
            final(self)@ == old(self)@ + bytes@,
    {
        let mut i: usize = 0;
        while i < bytes.len()
            invariant
                i <= bytes@.len(),
                self@ == old(self)@ + bytes@.take(i as int),
            decreases bytes@.len() - i,
        {
            self.buffer.push(bytes[i]);
            i += 1;
            assert(self@ =~= old(self)@ + bytes@.take(i as int));
        }
        assert(bytes@.take(i as int) =~= bytes@);
    }

    /// Appends `value` as four little-endian bytes.
    pub fn push_u32_le(&mut self, value: u32)
        ensures
            final(self)@ == old(self)@ + le_bytes(value as u64, 4),
    {
        self.buffer.push(value as u8);
        self.buffer.push((value >> 8u32) as u8);
        self.buffer.push((value >> 16u32) as u8);
        self.buffer.push((value >> 24u32) as u8);
        proof {
            let v = value as u64;
            assert((v >> 0u64) as u8 == value as u8) by (bit_vector)
                requires
                    v == value as u64,
            ;
            assert((v >> 8u64) as u8 == (value >> 8u32) as u8) by (bit_vector)
                requires
                    v == value as u64,
            ;
            assert((v >> 16u64) as u8 == (value >> 16u32) as u8) by (bit_vector)
                requires
                    v == value as u64,
            ;
            assert((v >> 24u64) as u8 == (value >> 24u32) as u8) by (bit_vector)
                requires
                    v == value as u64,
            ;
            assert(self@ =~= old(self)@ + le_bytes(value as u64, 4));
        }
    }

    /// Appends `value` as two little-endian bytes.
    pub fn push_u16_le(&mut self, value: u16)
        ensures
            final(self)@ == old(self)@ + le_bytes(value as u64, 2),
    {
        self.buffer.push(value as u8);
        self.buffer.push((value >> 8u16) as u8);
        proof {
            let v = value as u64;
            assert((v >> 0u64) as u8 == value as u8) by (bit_vector)
                requires
                    v == value as u64,
            ;
            assert((v >> 8u64) as u8 == (value >> 8u16) as u8) by (bit_vector)
                requires
                    v == value as u64,
            ;
            assert(self@ =~= old(self)@ + le_bytes(value as u64, 2));
        }
    }

    /// Reserves `length` bytes, written as zeros until something is written over them.
    pub fn skip(&mut self, length: usize)
        ensures
            final(self)@ == old(self)@ + Seq::new(length as nat, |i: int| 0u8),
    {
        let mut i: usize = 0;
        while i < length
            invariant
                i <= length,
                self@ == old(self)@ + Seq::new(i as nat, |k: int| 0u8),
            decreases length - i,
        {
            self.buffer.push(0u8);
            i += 1;
            assert(self@ =~= old(self)@ + Seq::new(i as nat, |k: int| 0u8));
        }
    }

    /// Takes back the last `length` bytes written.
    pub fn rewind(&mut self, length: usize)
        requires
            length <= old(self)@.len(),
        ensures
            final(self)@ == old(self)@.take(old(self)@.len() - length),
    {
        let keep = self.buffer.len() - length;
        self.buffer.truncate(keep);
    }
}

} // verus!
