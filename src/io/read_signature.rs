use vstd::prelude::*;

verus! {

/// The flags of one block as the decoder consumes them, lowest bits first.
#[derive(Debug)]
pub struct ReadSignature {
    pub value: u64,
}

impl ReadSignature {
    pub fn new(value: u64) -> (r: ReadSignature)
        ensures
            r.value == value,
    {
        ReadSignature { value }
    }

    /// Takes the next flag, `n` bits wide, selected by `mask`.
    pub fn read_bits(&mut self, mask: u64, n: u8) -> (r: u64)
        requires
            n < 64,
        ensures
            r == old(self).value & mask,
            final(self).value == old(self).value >> n as u64,
    {
        let value = self.value & mask;
        self.value = self.value >> n;
        value
    }
}

} // verus!
