use vstd::prelude::*;

verus! {

/// The flags of one block as they are gathered, lowest bits first, together
/// with the place in the output that is reserved for them.
#[derive(Debug)]
pub struct WriteSignature {
    pub pos: usize,
    pub value: u64,
    pub shift: u8,
}

impl WriteSignature {
    pub fn new() -> (r: WriteSignature)
        ensures
            r.pos == 0,
            r.value == 0,
            r.shift == 0,
    {
        WriteSignature { pos: 0, value: 0, shift: 0 }
    }

    /// Sets the flag `mask`, `n` bits wide, just above the flags pushed before.
    pub fn push_bits(&mut self, mask: u64, n: u8)
        requires
            old(self).shift + n <= 64,
            n >= 1,
        ensures
            final(self).value == old(self).value | (mask << old(self).shift as u64),
            final(self).shift == old(self).shift + n,
            final(self).pos == old(self).pos,
    {
        self.value = self.value | (mask << self.shift);
        self.shift = self.shift + n;
    }

    /// Starts the signature of a new block, reserved at `pos`.
    pub fn init(&mut self, pos: usize)
        ensures
            final(self).pos == pos,
            final(self).value == 0,
            final(self).shift == 0,
    {
        self.pos = pos;
        self.value = 0;
        self.shift = 0;
    }
}

} // verus!
