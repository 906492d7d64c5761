use vstd::prelude::*;

verus! {

/// A fixed-capacity staging area of `N` bytes, filled from the front.
pub struct Buffer<const N: usize> {
    pub buffer: [u8; N],
    pub index: usize,
}

impl<const N: usize> Buffer<N> {
    /// What has been pushed so far.
    pub open spec fn filled(&self) -> Seq<u8> {
        self.buffer@.take(self.index as int)
    }

    pub open spec fn wf(&self) -> bool {
        self.index <= N
    }

    pub fn new() -> (r: Buffer<N>)
        ensures
            r.wf(),
            r.index == 0,
            r.filled() == Seq::<u8>::empty(),
    {
        let r = Buffer { buffer: [0u8; N], index: 0 };
        assert(r.filled() =~= Seq::<u8>::empty());
        r
    }

    /// Appends `bytes`, which must fit in what is left.
    pub fn push(&mut self, bytes: &[u8])
        requires
            old(self).wf(),
            old(self).index + bytes@.len() <= N,
        ensures
            final(self).wf(),
            final(self).index == old(self).index + bytes@.len(),
            final(self).filled() == old(self).filled() + bytes@,
    {
        let mut i: usize = 0;
        while i < bytes.len()
            invariant
                self.wf(),
                old(self).index + bytes@.len() <= N,
                self.index == old(self).index,
                self.buffer@.len() == N,
                i <= bytes@.len(),
                self.buffer@.take(self.index + i) == old(self).filled() + bytes@.take(i as int),
            decreases bytes@.len() - i,
        {
            let ghost before = self.buffer@;
            self.buffer[self.index + i] = bytes[i];
            assert(self.buffer@ == before.update(self.index + i, bytes@[i as int]));
            proof {
                let k = self.index + i;
                assert(before.take(k) == old(self).filled() + bytes@.take(i as int));
                assert forall|j: int| 0 <= j < k + 1 implies #[trigger] self.buffer@.take(k + 1)[j]
                    == (old(self).filled() + bytes@.take(i + 1))[j] by {
                    if j < k {
                        assert(self.buffer@.take(k + 1)[j] == before.take(k)[j]);
                    }
                }
                assert(self.buffer@.take(k + 1) =~= old(self).filled() + bytes@.take(i + 1));
            }
            i += 1;
        }
        self.index = self.index + i;
        assert(bytes@.take(i as int) =~= bytes@);
    }

    pub fn remaining_space(&self) -> (r: usize)
        requires
            self.wf(),
        ensures
            r == N - self.index,
    {
        N - self.index
    }

    /// Empties the buffer.
    pub fn reset(&mut self)
        ensures
            final(self).wf(),
            final(self).index == 0,
            final(self).filled() == Seq::<u8>::empty(),
    {
        self.index = 0;
        assert(self.filled() =~= Seq::<u8>::empty());
    }

    pub fn is_empty(&self) -> (r: bool)
        ensures
            r == (self.index == 0),
    {
        self.index == 0
    }
}

} // verus!
