use vstd::prelude::*;

use crate::algorithms::PLAIN_FLAG;
use crate::codec::quad_encoder::QuadEncoder;
use crate::errors::decode_error::DecodeError;
use crate::io::bytes::le_bytes;
use crate::io::read_buffer::ReadBuffer;
use crate::io::read_signature::ReadSignature;
use crate::io::write_buffer::WriteBuffer;

verus! {

/// The inverse of an algorithm's per-quad decision.
pub trait QuadDecoder: QuadEncoder {
    /// Selects the lowest flag of a signature.
    spec fn spec_flag_mask() -> u64;

    /// Number of quads that one `decode_unit` call decodes.
    spec fn spec_unit_quads() -> nat;

    /// One step of the decoder on a flag: the next model, the quad, and the
    /// number of input bytes consumed; `None` when `input` is too short.
    spec fn spec_decode_quad(m: Self::V, flag: u64, input: Seq<u8>) -> Option<(Self::V, u32, nat)>;

    proof fn lemma_decoder_shape()
        ensures
            Self::spec_flag_bits() == 1 && Self::spec_flag_mask() == 1 || Self::spec_flag_bits() == 2
                && Self::spec_flag_mask() == 3 || Self::spec_flag_bits() == 3
                && Self::spec_flag_mask() == 7,
            1 <= Self::spec_unit_quads() <= 2,
    ;

    /// A step of the decoder consumes at most four bytes of what it is given.
    proof fn lemma_decode_quad_bounds(m: Self::V, flag: u64, input: Seq<u8>)
        requires
            Self::wf_model(m),
        ensures
            Self::spec_decode_quad(m, flag, input) matches Some((m1, q, c)) ==> c <= input.len() && c
                <= 4 && Self::wf_model(m1),
    ;

    /// The decoder replays the encoder's step: from the flag and the payload
    /// it recovers the quad and the same model, consuming the payload exactly.
    proof fn lemma_decode_quad(m: Self::V, quad: u32, rest: Seq<u8>)
        requires
            Self::wf_model(m),
        ensures
            ({
                let (m1, flag, payload) = Self::spec_encode_quad(m, quad);
                Self::spec_decode_quad(m, flag, payload + rest) == Some((m1, quad, payload.len()))
            }),
    ;

}

/// What decoding some quads of a block gives: the model after them, the
/// bytes they stand for, the number of input bytes consumed, whether the
/// stream ended among them, and the flags that are left.
pub type QuadsDecoded<M> = (M, Seq<u8>, nat, bool, u64);

/// Decoding the next `n` quads of a block, whose flags not yet consumed are
/// `flags` (the next one in the low bits), from `input`.
///
/// A `PLAIN_FLAG` with fewer than four bytes left marks the end of the
/// stream: what is left is the stream's ragged tail, copied as it stands.
/// `None` when the input runs out where a quad needs bytes.
pub open spec fn decode_quads<C: QuadDecoder>(m: C::V, flags: u64, input: Seq<u8>, n: nat) -> Option<
    QuadsDecoded<C::V>,
>
    decreases n,
{
    if n == 0 {
        Some((m, Seq::empty(), 0, false, flags))
    } else {
        let flag = flags & C::spec_flag_mask();
        if flag == PLAIN_FLAG && input.len() < 4 {
            Some((m, input, input.len(), true, flags >> C::spec_flag_bits()))
        } else {
            match C::spec_decode_quad(m, flag, input) {
                None => None,
                Some((m1, quad, c)) => match decode_quads::<C>(
                    m1,
                    flags >> C::spec_flag_bits(),
                    input.skip(c as int),
                    (n - 1) as nat,
                ) {
                    None => None,
                    Some((m2, out, c2, stop, rest_flags)) => Some(
                        (m2, le_bytes(quad as u64, 4) + out, c + c2, stop, rest_flags),
                    ),
                },
            }
        }
    }
}

/// Decoding `a` quads and then `b` more is decoding `a + b` quads.
pub open spec fn then_decode<C: QuadDecoder>(first: Option<QuadsDecoded<C::V>>, input: Seq<u8>, b: nat) -> Option<
    QuadsDecoded<C::V>,
> {
    match first {
        None => None,
        Some((m1, o1, c1, stop, v1)) => if stop {
            Some((m1, o1, c1, true, v1))
        } else {
            match decode_quads::<C>(m1, v1, input.skip(c1 as int), b) {
                None => None,
                Some((m2, o2, c2, s2, v2)) => Some((m2, o1 + o2, c1 + c2, s2, v2)),
            }
        },
    }
}

/// Decoding of whole units of quads, as the block decoder drives it.
pub trait Decoder: QuadDecoder {
    /// Decodes the next `spec_unit_quads()` quads, when enough input is left
    /// for any of them.
    fn decode_unit(
        &mut self,
        in_buffer: &mut ReadBuffer,
        signature: &mut ReadSignature,
        out_buffer: &mut WriteBuffer,
    )
        requires
            old(self).wf(),
            old(in_buffer).wf(),
            old(in_buffer).rest().len() >= 4 * Self::spec_unit_quads(),
        ensures
            final(self).wf(),
            final(in_buffer).wf(),
            final(in_buffer).buffer == old(in_buffer).buffer,
            decode_quads::<Self>(
                old(self)@,
                old(signature).value,
                old(in_buffer).rest(),
                Self::spec_unit_quads(),
            ) == Some(
                (
                    final(self)@,
                    final(out_buffer)@.skip(old(out_buffer)@.len() as int),
                    (final(in_buffer).index - old(in_buffer).index) as nat,
                    false,
                    final(signature).value,
                ),
            ),
            final(out_buffer)@.len() >= old(out_buffer)@.len(),
            final(out_buffer)@.take(old(out_buffer)@.len() as int) == old(out_buffer)@,
            final(in_buffer).index >= old(in_buffer).index,
    ;

    /// Decodes the next `spec_unit_quads()` quads near the end of the input;
    /// answers whether the stream ended among them.
    fn decode_partial_unit(
        &mut self,
        in_buffer: &mut ReadBuffer,
        signature: &mut ReadSignature,
        out_buffer: &mut WriteBuffer,
    ) -> (r: Result<bool, DecodeError>)
        requires
            old(self).wf(),
            old(in_buffer).wf(),
        ensures
            final(self).wf(),
            final(in_buffer).wf(),
            final(in_buffer).buffer == old(in_buffer).buffer,
            match r {
                Ok(stop) => decode_quads::<Self>(
                    old(self)@,
                    old(signature).value,
                    old(in_buffer).rest(),
                    Self::spec_unit_quads(),
                ) == Some(
                    (
                        final(self)@,
                        final(out_buffer)@.skip(old(out_buffer)@.len() as int),
                        (final(in_buffer).index - old(in_buffer).index) as nat,
                        stop,
                        final(signature).value,
                    ),
                ),
                Err(_) => decode_quads::<Self>(
                    old(self)@,
                    old(signature).value,
                    old(in_buffer).rest(),
                    Self::spec_unit_quads(),
                ) is None,
            },
            final(out_buffer)@.len() >= old(out_buffer)@.len(),
            final(out_buffer)@.take(old(out_buffer)@.len() as int) == old(out_buffer)@,
            final(in_buffer).index >= old(in_buffer).index,
    ;
}

/// Decoding never consumes more than it is given, and keeps the model whole.
pub proof fn lemma_decode_quads_bounds<C: QuadDecoder>(m: C::V, flags: u64, input: Seq<u8>, n: nat)
    requires
        C::wf_model(m),
    ensures
        decode_quads::<C>(m, flags, input, n) matches Some((m1, o, c, stop, v)) ==> c
            <= input.len() && C::wf_model(m1),
    decreases n,
{
    if n > 0 {
        let flag = flags & C::spec_flag_mask();
        if !(flag == PLAIN_FLAG && input.len() < 4) {
            C::lemma_decode_quad_bounds(m, flag, input);
            if let Some((m1, quad, c)) = C::spec_decode_quad(m, flag, input) {
                lemma_decode_quads_bounds::<C>(
                    m1,
                    flags >> C::spec_flag_bits(),
                    input.skip(c as int),
                    (n - 1) as nat,
                );
            }
        }
    }
}

/// Decoding `a` quads and then `b` more is decoding `a + b` quads.
pub proof fn lemma_decode_quads_split<C: QuadDecoder>(
    m: C::V,
    flags: u64,
    input: Seq<u8>,
    a: nat,
    b: nat,
)
    requires
        C::wf_model(m),
    ensures
        decode_quads::<C>(m, flags, input, a + b) == then_decode::<C>(
            decode_quads::<C>(m, flags, input, a),
            input,
            b,
        ),
    decreases a,
{
    if a == 0 {
        assert(input.skip(0) =~= input);
        match decode_quads::<C>(m, flags, input, b) {
            None => {},
            Some((m2, o2, c2, s2, v2)) => {
                assert(Seq::<u8>::empty() + o2 =~= o2);
            },
        }
    } else {
        let flag = flags & C::spec_flag_mask();
        if !(flag == PLAIN_FLAG && input.len() < 4) {
            C::lemma_decode_quad_bounds(m, flag, input);
            if let Some((m1, quad, c)) = C::spec_decode_quad(m, flag, input) {
                let rest = input.skip(c as int);
                let f1 = flags >> C::spec_flag_bits();
                lemma_decode_quads_split::<C>(m1, f1, rest, (a - 1) as nat, b);
                assert((a + b - 1) as nat == (a - 1) as nat + b);
                lemma_decode_quads_bounds::<C>(m1, f1, rest, (a - 1) as nat);
                if let Some((m2, o2, c2, s2, v2)) = decode_quads::<C>(m1, f1, rest, (a - 1) as nat) {
                    if !s2 {
                        assert(rest.skip(c2 as int) =~= input.skip((c + c2) as int));
                        if let Some((m3, o3, c3, s3, v3)) = decode_quads::<C>(
                            m2,
                            v2,
                            rest.skip(c2 as int),
                            b,
                        ) {
                            assert(le_bytes(quad as u64, 4) + (o2 + o3) =~= (le_bytes(quad as u64, 4)
                                + o2) + o3);
                        }
                    }
                }
            }
        }
    }
}

} // verus!
