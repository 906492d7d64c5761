use vstd::prelude::*;

use crate::io::bytes::{le_bytes, lemma_flags_bound, lemma_flags_shift};
use crate::io::write_buffer::WriteBuffer;
use crate::io::write_signature::WriteSignature;

verus! {

/// The per-quad decision of an algorithm: a flag for the signature, and a
/// payload for the output, which is the quad itself, a short reference, or
/// nothing at all.
///
/// The algorithm's tables are modelled by its view; `spec_encode_quad` is the
/// whole behaviour of one step on that model.
pub trait QuadEncoder: View + Sized {
    /// The executable state is consistent (its tables have their full size).
    spec fn wf(&self) -> bool;

    /// The model's tables have their full size.
    spec fn wf_model(m: Self::V) -> bool;

    /// Width of a flag in the signature, in bits.
    spec fn spec_flag_bits() -> u64;

    /// Payload bytes per block; a block holds `spec_quads_per_block()` quads.
    spec fn spec_block_size() -> nat;

    /// Number of quads of a full block: their flags fill the signature.
    spec fn spec_quads_per_block() -> nat;

    /// Number of signature bytes written per block.
    spec fn spec_signature_bytes() -> nat;

    /// The model of a freshly constructed (or cleared) instance.
    spec fn initial_model() -> Self::V;

    /// One step of the encoder: the next model, the flag and the payload.
    spec fn spec_encode_quad(m: Self::V, quad: u32) -> (Self::V, u64, Seq<u8>);

    /// How the constants of the block format fit together.
    proof fn lemma_framing()
        ensures
            1 <= Self::spec_flag_bits() <= 3,
            Self::spec_quads_per_block() >= 1,
            Self::spec_block_size() == 4 * Self::spec_quads_per_block(),
            Self::spec_flag_bits() * Self::spec_quads_per_block() <= 8
                * Self::spec_signature_bytes(),
            Self::spec_signature_bytes() == 6 || Self::spec_signature_bytes() == 8,
            Self::spec_flag_bits() * Self::spec_quads_per_block() <= 64,
            Self::wf_model(Self::initial_model()),
    ;

    proof fn lemma_wf(&self)
        requires
            self.wf(),
        ensures
            Self::wf_model(self@),
    ;

    /// A flag fits its width, a payload is never longer than the quad, and
    /// the flag `PLAIN_FLAG` (zero) carries the quad itself.
    proof fn lemma_encode_quad(m: Self::V, quad: u32)
        requires
            Self::wf_model(m),
        ensures
            1 <= Self::spec_flag_bits() <= 3,
            Self::spec_encode_quad(m, quad).1 >> Self::spec_flag_bits() == 0,
            Self::spec_encode_quad(m, quad).2.len() <= 4,
            Self::spec_encode_quad(m, quad).1 == 0 ==> Self::spec_encode_quad(m, quad).2 == le_bytes(
                quad as u64,
                4,
            ),
            Self::wf_model(Self::spec_encode_quad(m, quad).0),
    ;

    fn encode_quad(&mut self, quad: u32, out_buffer: &mut WriteBuffer, signature: &mut WriteSignature)
        requires
            old(self).wf(),
            old(signature).shift + Self::spec_flag_bits() <= 64,
        ensures
            final(self).wf(),
            final(self)@ == Self::spec_encode_quad(old(self)@, quad).0,
            final(signature).value == old(signature).value | (Self::spec_encode_quad(
                old(self)@,
                quad,
            ).1 << old(signature).shift as u64),
            final(signature).shift == old(signature).shift + Self::spec_flag_bits(),
            final(signature).pos == old(signature).pos,
            final(out_buffer)@ == old(out_buffer)@ + Self::spec_encode_quad(old(self)@, quad).2,
    ;
}

/// Encoding a run of quads from the model `m`: the model after them, their
/// flags packed lowest first (`spec_flag_bits()` each), and their payloads
/// one after the other.
pub open spec fn encode_quads<C: QuadEncoder>(m: C::V, quads: Seq<u32>) -> (C::V, u64, Seq<u8>)
    decreases quads.len(),
{
    if quads.len() == 0 {
        (m, 0, Seq::empty())
    } else {
        let (m1, flag, payload) = C::spec_encode_quad(m, quads[0]);
        let (m2, flags, rest) = encode_quads::<C>(m1, quads.skip(1));
        (m2, flag | (flags << C::spec_flag_bits()), payload + rest)
    }
}

/// The flags of a run stay below its own width, its payload is at most four
/// bytes per quad, and the model stays whole.
pub proof fn lemma_encode_quads_bounds<C: QuadEncoder>(m: C::V, quads: Seq<u32>)
    requires
        C::wf_model(m),
    ensures
        C::spec_flag_bits() * quads.len() < 64 ==> encode_quads::<C>(m, quads).1 >> (
        C::spec_flag_bits() * quads.len()) as u64 == 0,
        encode_quads::<C>(m, quads).2.len() <= 4 * quads.len(),
        C::wf_model(encode_quads::<C>(m, quads).0),
    decreases quads.len(),
{
    if quads.len() == 0 {
        assert(0u64 >> 0u64 == 0) by (bit_vector);
    } else {
        C::lemma_encode_quad(m, quads[0]);
        let (m1, flag, payload) = C::spec_encode_quad(m, quads[0]);
        let t = quads.skip(1);
        lemma_encode_quads_bounds::<C>(m1, t);
        let w = C::spec_flag_bits();
        if w * quads.len() < 64 {
            assert(w * quads.len() == w * t.len() + w) by (nonlinear_arith)
                requires
                    quads.len() == t.len() + 1,
            ;
            lemma_flags_bound(flag, encode_quads::<C>(m1, t).1, (w * t.len()) as u64, w);
        }
    }
}

/// Encoding one more quad after a run puts its flag just above the run's
/// flags and its payload after the run's payload.
pub proof fn lemma_encode_quads_push<C: QuadEncoder>(m: C::V, quads: Seq<u32>, quad: u32)
    requires
        C::wf_model(m),
        C::spec_flag_bits() * (quads.len() + 1) <= 64,
    ensures
        ({
            let (m1, flags, payload) = encode_quads::<C>(m, quads);
            let (m2, flag, last) = C::spec_encode_quad(m1, quad);
            encode_quads::<C>(m, quads.push(quad)) == (
                m2,
                flags | (flag << (C::spec_flag_bits() * quads.len()) as u64),
                payload + last,
            )
        }),
    decreases quads.len(),
{
    let w = C::spec_flag_bits();
    C::lemma_encode_quad(m, quad);
    let all = quads.push(quad);
    if quads.len() == 0 {
        let (m2, flag, last) = C::spec_encode_quad(m, quad);
        reveal_with_fuel(encode_quads, 2);
        assert(all.skip(1) =~= Seq::<u32>::empty());
        assert(flag | (0u64 << w) == 0u64 | (flag << 0u64)) by (bit_vector);
        assert(last + Seq::<u8>::empty() =~= Seq::<u8>::empty() + last);
    } else {
        C::lemma_encode_quad(m, quads[0]);
        let (m1, f0, p0) = C::spec_encode_quad(m, quads[0]);
        let t = quads.skip(1);
        assert(all.skip(1) =~= t.push(quad));
        assert(all[0] == quads[0]);
        assert(w * (t.len() + 1) <= 64) by (nonlinear_arith)
            requires
                w * (quads.len() + 1) <= 64,
                quads.len() == t.len() + 1,
        ;
        lemma_encode_quads_push::<C>(m1, t, quad);
        let (mt, ft, pt) = encode_quads::<C>(m1, t);
        let (m2, flag, last) = C::spec_encode_quad(mt, quad);
        assert(w * t.len() + w == w * quads.len() && w * quads.len() + w <= 64)
            by (nonlinear_arith)
            requires
                quads.len() == t.len() + 1,
                w * (quads.len() + 1) <= 64,
        ;
        lemma_flags_shift(f0, ft, flag, (w * t.len()) as u64, w);
        assert(p0 + (pt + last) =~= (p0 + pt) + last);
    }
}

} // verus!
